use crate::math::fixed::div_floor;
use crate::math::fixed::floor_div;
use crate::math::fixed::saturate;
use crate::math::fixed::Fixed;
use crate::math::vector::Vec2i;
use crate::math::vector::Vec3f;
use crate::math::vector::Vector;
use crate::renderer::handed_on;
use crate::renderer::steady;
use crate::renderer::Img;
use vstd::arithmetic::div_mod::lemma_fundamental_div_mod_converse;
use vstd::prelude::*;

verus! {

/// The raw x and y of a screen-space position.
pub open spec fn xy(v: Vec3f) -> (int, int) {
    (v.0[0].0 as int, v.0[1].0 as int)
}

/// The raw depth of a screen-space position.
pub open spec fn depth_of(v: Vec3f) -> int {
    v.0[2].0 as int
}

/// The raw position of the pixel `(x, y)`.
pub open spec fn pixel_raw(p: (int, int)) -> (int, int) {
    (p.0 * 65536, p.1 * 65536)
}

/// Twice the signed area of the triangle `a`, `b`, `c`: positive when the
/// corners turn from the x axis toward the y axis.
pub open spec fn orient(a: (int, int), b: (int, int), c: (int, int)) -> int {
    (b.0 - a.0) * (c.1 - a.1) - (b.1 - a.1) * (c.0 - a.0)
}

/// The cross product of the two edge vectors `(c - a, b - a, a - p)`, taken
/// once for x and once for y. Its third component is minus twice the signed
/// area of the triangle.
pub open spec fn edge_cross(a: (int, int), b: (int, int), c: (int, int), p: (int, int)) -> (
    int,
    int,
    int,
) {
    (
        (b.0 - a.0) * (a.1 - p.1) - (a.0 - p.0) * (b.1 - a.1),
        (a.0 - p.0) * (c.1 - a.1) - (c.0 - a.0) * (a.1 - p.1),
        (c.0 - a.0) * (b.1 - a.1) - (b.0 - a.0) * (c.1 - a.1),
    )
}

/// Whether the triangle counts as degenerate: the third component of its
/// edge cross product, which is a product of two raw lengths, is at most one
/// hundredth in magnitude.
pub open spec fn degenerate(a: (int, int), b: (int, int), c: (int, int)) -> bool {
    let uz = edge_cross(a, b, c, a).2;
    100 * (if uz < 0 { -uz } else { uz }) <= 0x1_0000_0000
}

/// The barycentric weights of `p` in the triangle `a`, `b`, `c` as three
/// numerators over one positive denominator, in the order of the corners.
/// Not meaningful for a triangle of zero area.
pub open spec fn weights(a: (int, int), b: (int, int), c: (int, int), p: (int, int)) -> (
    int,
    int,
    int,
    int,
) {
    let u = edge_cross(a, b, c, p);
    if u.2 < 0 {
        (-(u.2 - u.0 - u.1), -u.1, -u.0, -u.2)
    } else {
        (u.2 - u.0 - u.1, u.1, u.0, u.2)
    }
}

/// Barycentric weights as exact fractions: the weight of the first, second
/// and third corner is `a / den`, `b / den` and `c / den`.
#[derive(Clone, Copy, Debug, PartialEq, Eq, Structural)]
pub struct Weights {
    pub a: i128,
    pub b: i128,
    pub c: i128,
    pub den: i128,
}

impl Weights {
    /// The weights as mathematical integers.
    pub open spec fn view(self) -> (int, int, int, int) {
        (self.a as int, self.b as int, self.c as int, self.den as int)
    }

    /// Whether the fractions are well formed, sum to one and are small
    /// enough to interpolate with.
    pub open spec fn wf(self) -> bool {
        &&& self.den > 0
        &&& self.a + self.b + self.c == self.den
        &&& -0x8_0000_0000_0000_0000 <= self.a <= 0x8_0000_0000_0000_0000
        &&& -0x8_0000_0000_0000_0000 <= self.b <= 0x8_0000_0000_0000_0000
        &&& -0x8_0000_0000_0000_0000 <= self.c <= 0x8_0000_0000_0000_0000
    }

    /// Whether no weight is negative: the point is in the triangle or on
    /// its edge.
    pub fn inside(&self) -> (r: bool)
        ensures
            r == (self.a >= 0 && self.b >= 0 && self.c >= 0),
    {
        self.a >= 0 && self.b >= 0 && self.c >= 0
    }

    /// The weighted sum of three corner values.
    pub fn interpolate(&self, va: Fixed, vb: Fixed, vc: Fixed) -> (r: Fixed)
        requires
            self.wf(),
        ensures
            r.0 == interpolated(self@, va.0 as int, vb.0 as int, vc.0 as int),
    {
        let x: i128 = va.0 as i128;
        let y: i128 = vb.0 as i128;
        let z: i128 = vc.0 as i128;
        assert(-0x4_0000_0000_0000_0000_0000_0000 <= x * self.a
            <= 0x4_0000_0000_0000_0000_0000_0000) by (nonlinear_arith)
            requires
                -0x8000_0000 <= x <= 0x8000_0000,
                -0x8_0000_0000_0000_0000 <= self.a <= 0x8_0000_0000_0000_0000,
        ;
        assert(-0x4_0000_0000_0000_0000_0000_0000 <= y * self.b
            <= 0x4_0000_0000_0000_0000_0000_0000) by (nonlinear_arith)
            requires
                -0x8000_0000 <= y <= 0x8000_0000,
                -0x8_0000_0000_0000_0000 <= self.b <= 0x8_0000_0000_0000_0000,
        ;
        assert(-0x4_0000_0000_0000_0000_0000_0000 <= z * self.c
            <= 0x4_0000_0000_0000_0000_0000_0000) by (nonlinear_arith)
            requires
                -0x8000_0000 <= z <= 0x8000_0000,
                -0x8_0000_0000_0000_0000 <= self.c <= 0x8_0000_0000_0000_0000,
        ;
        let sum: i128 = x * self.a + y * self.b + z * self.c;
        Fixed::from_wide(div_floor(sum, self.den))
    }
}

/// The raw value of the weighted sum of three raw corner values.
pub open spec fn interpolated(w: (int, int, int, int), va: int, vb: int, vc: int) -> int {
    saturate(floor_div(va * w.0 + vb * w.1 + vc * w.2, w.3))
}

/// The weights of the raw point `p` in the triangle `t`, or `None` for a
/// triangle that counts as degenerate.
pub open spec fn bary(t: [Vec3f; 3], p: (int, int)) -> Option<(int, int, int, int)> {
    if degenerate(xy(t[0]), xy(t[1]), xy(t[2])) {
        None
    } else {
        Some(weights(xy(t[0]), xy(t[1]), xy(t[2]), p))
    }
}

/// The barycentric weights of `p` in the triangle `corners`, by x and y alone.
/// A triangle that counts as degenerate has none.
pub fn barycentric(corners: [Vec3f; 3], p: Vec3f) -> (r: Option<Weights>)
    ensures
        r is Some <==> bary(corners, xy(p)) is Some,
        r matches Some(w) ==> w.wf() && Some(w@) == bary(corners, xy(p)),
{
    let ax: i128 = corners[0].0[0].0 as i128;
    let ay: i128 = corners[0].0[1].0 as i128;
    let bx: i128 = corners[1].0[0].0 as i128;
    let by: i128 = corners[1].0[1].0 as i128;
    let cx: i128 = corners[2].0[0].0 as i128;
    let cy: i128 = corners[2].0[1].0 as i128;
    let px: i128 = p.0[0].0 as i128;
    let py: i128 = p.0[1].0 as i128;
    // the two edge vectors
    let s0: (i128, i128, i128) = (cx - ax, bx - ax, ax - px);
    let s1: (i128, i128, i128) = (cy - ay, by - ay, ay - py);
    proof {
        lemma_product_bound(s0.1 as int, s1.2 as int);
        lemma_product_bound(s0.2 as int, s1.1 as int);
        lemma_product_bound(s0.2 as int, s1.0 as int);
        lemma_product_bound(s0.0 as int, s1.2 as int);
        lemma_product_bound(s0.0 as int, s1.1 as int);
        lemma_product_bound(s0.1 as int, s1.0 as int);
    }
    let ux: i128 = s0.1 * s1.2 - s0.2 * s1.1;
    let uy: i128 = s0.2 * s1.0 - s0.0 * s1.2;
    let uz: i128 = s0.0 * s1.1 - s0.1 * s1.0;
    let mag: i128 = if uz < 0 { -uz } else { uz };
    assert(edge_cross(xy(corners[0]), xy(corners[1]), xy(corners[2]), xy(p)) == (
        ux as int,
        uy as int,
        uz as int,
    ));
    assert(edge_cross(xy(corners[0]), xy(corners[1]), xy(corners[2]), xy(corners[0])).2 == uz);
    if 100 * mag > 0x1_0000_0000 {
        if uz < 0 {
            Some(Weights { a: -(uz - ux - uy), b: -uy, c: -ux, den: -uz })
        } else {
            Some(Weights { a: uz - ux - uy, b: uy, c: ux, den: uz })
        }
    } else {
        None
    }
}

/// The product of two differences of raw coordinates is small.
pub proof fn lemma_product_bound(d: int, e: int)
    requires
        -0x1_0000_0000 <= d <= 0x1_0000_0000,
        -0x1_0000_0000 <= e <= 0x1_0000_0000,
    ensures
        -0x1_0000_0000_0000_0000 <= d * e <= 0x1_0000_0000_0000_0000,
{
    assert(-0x1_0000_0000_0000_0000 <= d * e <= 0x1_0000_0000_0000_0000) by (nonlinear_arith)
        requires
            -0x1_0000_0000 <= d <= 0x1_0000_0000,
            -0x1_0000_0000 <= e <= 0x1_0000_0000,
    ;
}

/// Whether `p` is a pixel of a surface of the given width and height.
pub open spec fn on_screen(ext: (int, int), p: (int, int)) -> bool {
    0 <= p.0 < ext.0 && 0 <= p.1 < ext.1
}

/// The place of pixel `p` in a depth buffer, which holds the surface row by
/// row.
pub open spec fn cell(ext: (int, int), p: (int, int)) -> int {
    p.0 + p.1 * ext.0
}

/// The pixel whose depth the `i`-th cell of a depth buffer holds.
pub open spec fn pixel_of(ext: (int, int), i: int) -> (int, int) {
    (i % ext.0, i / ext.0)
}

/// Whether the triangle `t` covers the pixel `p`: the triangle is not
/// degenerate and none of the pixel's weights is negative.
pub open spec fn covers(t: [Vec3f; 3], p: (int, int)) -> bool {
    match bary(t, pixel_raw(p)) {
        Some(w) => w.0 >= 0 && w.1 >= 0 && w.2 >= 0,
        None => false,
    }
}

/// The raw depth of the triangle `t` at the pixel `p`: the corners' depths
/// weighted by the pixel's weights.
pub open spec fn depth_at(t: [Vec3f; 3], p: (int, int)) -> int {
    match bary(t, pixel_raw(p)) {
        Some(w) => interpolated(w, depth_of(t[0]), depth_of(t[1]), depth_of(t[2])),
        None => 0,
    }
}

/// Whether filling `t` writes the pixel `p`: it is on the surface, the
/// triangle covers it, and with a depth buffer the triangle is strictly
/// nearer there than what the buffer held before the fill.
pub open spec fn hit(t: [Vec3f; 3], ext: (int, int), depth: Option<Seq<Fixed>>, p: (int, int)) -> bool {
    &&& on_screen(ext, p)
    &&& covers(t, p)
    &&& depth matches Some(z) ==> z[cell(ext, p)].0 < depth_at(t, p)
}

/// Whether the fill visits `p` before `q`: columns from left to right, each
/// from top to bottom.
pub open spec fn precedes(p: (int, int), q: (int, int)) -> bool {
    p.0 < q.0 || (p.0 == q.0 && p.1 < q.1)
}

/// Whether a fill that went as far as `lim` got past `p`; one that ran to
/// its end got past every pixel.
pub open spec fn passed(p: (int, int), lim: Option<(int, int)>) -> bool {
    lim matches Some(q) ==> precedes(p, q)
}

/// The pixels of a surface that held `before` once a fill of `t` in `color`
/// went as far as `lim`.
pub open spec fn pixels_upto<C>(
    t: [Vec3f; 3],
    ext: (int, int),
    depth: Option<Seq<Fixed>>,
    before: Map<(int, int), C>,
    color: C,
    lim: Option<(int, int)>,
) -> Map<(int, int), C> {
    Map::new(
        |p: (int, int)| before.dom().contains(p) || (hit(t, ext, depth, p) && passed(p, lim)),
        |p: (int, int)|
            if hit(t, ext, depth, p) && passed(p, lim) {
                color
            } else {
                before[p]
            },
    )
}

/// The depth buffer that held `depth` once a fill of `t` went as far as
/// `lim`; with `incl`, the cell of `lim` itself is already written.
pub open spec fn depth_upto(
    t: [Vec3f; 3],
    ext: (int, int),
    depth: Seq<Fixed>,
    lim: Option<(int, int)>,
    incl: bool,
) -> Seq<Fixed> {
    Seq::new(
        depth.len(),
        |i: int|
            {
                let p = pixel_of(ext, i);
                if ext.0 > 0 && hit(t, ext, Some(depth), p) && (passed(p, lim) || (incl && lim
                    == Some(p))) {
                    Fixed(depth_at(t, p) as i32)
                } else {
                    depth[i]
                }
            },
    )
}

/// What a fill of `t` in `color` leaves behind when the write of some hit
/// pixel `q` was refused: what comes before `q` is written, and so is the cell
/// of `q`.
pub open spec fn cut_short<C>(
    t: [Vec3f; 3],
    color: C,
    ext: (int, int),
    before: Map<(int, int), C>,
    after: Map<(int, int), C>,
    depth: Option<Seq<Fixed>>,
    depth_after: Option<Seq<Fixed>>,
) -> bool {
    exists|q: (int, int)|
        {
            &&& #[trigger] hit(t, ext, depth, q)
            &&& after == pixels_upto(t, ext, depth, before, color, Some(q))
            &&& depth_after == match depth {
                Some(z) => Some(depth_upto(t, ext, z, Some(q), true)),
                None => None,
            }
        }
}

/// What a fill of `t` in `color` leaves behind when no write was refused:
/// every pixel it hits holds `color` and its cell holds the triangle's depth.
pub open spec fn completed<C>(
    t: [Vec3f; 3],
    color: C,
    ext: (int, int),
    before: Map<(int, int), C>,
    after: Map<(int, int), C>,
    depth: Option<Seq<Fixed>>,
    depth_after: Option<Seq<Fixed>>,
) -> bool {
    &&& after == pixels_upto(t, ext, depth, before, color, None)
    &&& depth_after == match depth {
        Some(z) => Some(depth_upto(t, ext, z, None, false)),
        None => None,
    }
}

/// What a fill of `t` in `color` leaves behind on a target that is sure to
/// tell its size if `told`. When it went well, the fill is complete and
/// nothing was refused. When it did not, either the fill was cut short at the
/// one pixel that the target refused, and the error returned is the error of
/// that refusal; or the target did not tell its size, which it was not sure to
/// do, and nothing changed.
pub open spec fn filled<C, E>(
    t: [Vec3f; 3],
    color: C,
    ext: (int, int),
    before: Map<(int, int), C>,
    after: Map<(int, int), C>,
    depth: Option<Seq<Fixed>>,
    depth_after: Option<Seq<Fixed>>,
    refused: Seq<E>,
    refused_after: Seq<E>,
    told: bool,
    r: Result<(), E>,
) -> bool {
    match r {
        Ok(()) => completed(t, color, ext, before, after, depth, depth_after) && refused_after
            == refused,
        Err(e) => {
            ||| !told && after == before && depth_after == depth && refused_after == refused
            ||| cut_short(t, color, ext, before, after, depth, depth_after) && refused_after
                == refused.push(e)
        },
    }
}

/// Whether the target is sure to take every pixel that a fill of `t` hits.
pub open spec fn hits_taken<I: Img>(target: I, t: [Vec3f; 3], depth: Option<Seq<Fixed>>) -> bool {
    forall|p: (int, int)| #[trigger] hit(t, target.extent(), depth, p) ==> target.takes(p)
}

/// Whether a depth buffer has a cell for every pixel of the surface.
pub open spec fn depth_fits(ext: (int, int), len: int) -> bool {
    ext.0 > 0 && ext.1 > 0 ==> ext.0 * ext.1 <= len
}

/// The cell of a pixel on the surface lies inside the surface's storage,
/// and no other pixel shares it.
pub proof fn lemma_cell_in_range(ext: (int, int), p: (int, int))
    requires
        on_screen(ext, p),
    ensures
        0 <= p.1 * ext.0 <= cell(ext, p) < ext.0 * ext.1,
        pixel_of(ext, cell(ext, p)) == p,
{
    let w: int = ext.0;
    let h: int = ext.1;
    assert(0 <= p.1 * w && p.1 * w + w <= h * w && h * w == w * h) by (nonlinear_arith)
        requires
            0 <= p.1,
            p.1 + 1 <= h,
            0 < w,
    ;
    lemma_fundamental_div_mod_converse(cell(ext, p), w, p.1, p.0);
}

/// A point with no negative weight is a weighted mean of the corners, so it
/// lies within their span on each axis.
pub proof fn lemma_covered_in_span(a: (int, int), b: (int, int), c: (int, int), p: (int, int))
    requires
        edge_cross(a, b, c, a).2 != 0,
        weights(a, b, c, p).0 >= 0,
        weights(a, b, c, p).1 >= 0,
        weights(a, b, c, p).2 >= 0,
    ensures
        a.0 <= p.0 || b.0 <= p.0 || c.0 <= p.0,
        a.0 >= p.0 || b.0 >= p.0 || c.0 >= p.0,
        a.1 <= p.1 || b.1 <= p.1 || c.1 <= p.1,
        a.1 >= p.1 || b.1 >= p.1 || c.1 >= p.1,
{
    let w = weights(a, b, c, p);
    lemma_weights_mean(a, b, c, p);
    lemma_mean_in_span(w, a.0, b.0, c.0, p.0);
    lemma_mean_in_span(w, a.1, b.1, c.1, p.1);
}

/// The weights sum to their denominator, and they weigh the corners to the
/// point itself.
pub proof fn lemma_weights_mean(a: (int, int), b: (int, int), c: (int, int), p: (int, int))
    ensures
        ({
            let w = weights(a, b, c, p);
            &&& w.0 + w.1 + w.2 == w.3
            &&& w.0 * a.0 + w.1 * b.0 + w.2 * c.0 == w.3 * p.0
            &&& w.0 * a.1 + w.1 * b.1 + w.2 * c.1 == w.3 * p.1
            &&& (w.3 > 0 <==> edge_cross(a, b, c, a).2 != 0)
        }),
{
    let u = edge_cross(a, b, c, p);
    assert(edge_cross(a, b, c, a).2 == u.2);
    lemma_cross_cancels(a.0 - p.0, a.1 - p.1, b.0 - a.0, b.1 - a.1, c.0 - a.0, c.1 - a.1);
    lemma_mean_identity(u, a.0, b.0, c.0, p.0);
    lemma_mean_identity(u, a.1, b.1, c.1, p.1);
    let w = weights(a, b, c, p);
    if u.2 < 0 {
        lemma_negated_mean(u, w, a.0, b.0, c.0, p.0);
        lemma_negated_mean(u, w, a.1, b.1, c.1, p.1);
    }
}

/// The three components of an edge cross product, each times the edge it
/// does not come from, cancel.
pub proof fn lemma_cross_cancels(s: int, sp: int, b: int, bp: int, c: int, cp: int)
    ensures
        (s * cp - c * sp) * b + (b * sp - s * bp) * c + (c * bp - b * cp) * s == 0,
        (s * cp - c * sp) * bp + (b * sp - s * bp) * cp + (c * bp - b * cp) * sp == 0,
{
    assert((s * cp - c * sp) * b == s * cp * b - c * sp * b) by (nonlinear_arith);
    assert((b * sp - s * bp) * c == b * sp * c - s * bp * c) by (nonlinear_arith);
    assert((c * bp - b * cp) * s == c * bp * s - b * cp * s) by (nonlinear_arith);
    assert(s * cp * b == b * cp * s) by (nonlinear_arith);
    assert(c * sp * b == b * sp * c) by (nonlinear_arith);
    assert(s * bp * c == c * bp * s) by (nonlinear_arith);
    assert((s * cp - c * sp) * bp == s * cp * bp - c * sp * bp) by (nonlinear_arith);
    assert((b * sp - s * bp) * cp == b * sp * cp - s * bp * cp) by (nonlinear_arith);
    assert((c * bp - b * cp) * sp == c * bp * sp - b * cp * sp) by (nonlinear_arith);
    assert(s * cp * bp == s * bp * cp) by (nonlinear_arith);
    assert(c * sp * bp == c * bp * sp) by (nonlinear_arith);
    assert(b * sp * cp == b * cp * sp) by (nonlinear_arith);
}

/// If a cross product's components cancel against the edges of one axis, the
/// weights it gives weigh the corners' coordinates on that axis to the
/// point's.
pub proof fn lemma_mean_identity(u: (int, int, int), va: int, vb: int, vc: int, vp: int)
    requires
        u.1 * (vb - va) + u.0 * (vc - va) + u.2 * (va - vp) == 0,
    ensures
        (u.2 - u.0 - u.1) * va + u.1 * vb + u.0 * vc == u.2 * vp,
{
    assert((u.2 - u.0 - u.1) * va == u.2 * va - u.0 * va - u.1 * va) by (nonlinear_arith);
    assert(u.1 * (vb - va) == u.1 * vb - u.1 * va) by (nonlinear_arith);
    assert(u.0 * (vc - va) == u.0 * vc - u.0 * va) by (nonlinear_arith);
    assert(u.2 * (va - vp) == u.2 * va - u.2 * vp) by (nonlinear_arith);
}

/// Negating numerators and denominator alike keeps the weighted mean.
pub proof fn lemma_negated_mean(
    u: (int, int, int),
    w: (int, int, int, int),
    va: int,
    vb: int,
    vc: int,
    vp: int,
)
    requires
        (u.2 - u.0 - u.1) * va + u.1 * vb + u.0 * vc == u.2 * vp,
        w.0 == -(u.2 - u.0 - u.1),
        w.1 == -u.1,
        w.2 == -u.0,
        w.3 == -u.2,
    ensures
        w.0 * va + w.1 * vb + w.2 * vc == w.3 * vp,
{
    assert((-(u.2 - u.0 - u.1)) * va == -((u.2 - u.0 - u.1) * va)) by (nonlinear_arith);
    assert((-u.1) * vb == -(u.1 * vb)) by (nonlinear_arith);
    assert((-u.0) * vc == -(u.0 * vc)) by (nonlinear_arith);
    assert((-u.2) * vp == -(u.2 * vp)) by (nonlinear_arith);
}

/// A weighted mean of three values, with no negative weight, is at least
/// the least of them and at most the greatest.
pub proof fn lemma_mean_in_span(w: (int, int, int, int), va: int, vb: int, vc: int, m: int)
    requires
        w.0 >= 0,
        w.1 >= 0,
        w.2 >= 0,
        w.3 > 0,
        w.0 + w.1 + w.2 == w.3,
        w.0 * va + w.1 * vb + w.2 * vc == w.3 * m,
    ensures
        va <= m || vb <= m || vc <= m,
        va >= m || vb >= m || vc >= m,
{
    if va > m && vb > m && vc > m {
        assert(w.0 * va + w.1 * vb + w.2 * vc > w.3 * m) by (nonlinear_arith)
            requires
                w.0 >= 0,
                w.1 >= 0,
                w.2 >= 0,
                w.0 + w.1 + w.2 == w.3,
                w.3 > 0,
                va > m,
                vb > m,
                vc > m,
        ;
    }
    if va < m && vb < m && vc < m {
        assert(w.0 * va + w.1 * vb + w.2 * vc < w.3 * m) by (nonlinear_arith)
            requires
                w.0 >= 0,
                w.1 >= 0,
                w.2 >= 0,
                w.0 + w.1 + w.2 == w.3,
                w.3 > 0,
                va < m,
                vb < m,
                vc < m,
        ;
    }
}

/// The least and the greatest of three values.
pub open spec fn least(a: int, b: int, c: int) -> int {
    if a <= b && a <= c {
        a
    } else if b <= c {
        b
    } else {
        c
    }
}

pub open spec fn greatest(a: int, b: int, c: int) -> int {
    if a >= b && a >= c {
        a
    } else if b >= c {
        b
    } else {
        c
    }
}

/// The first column and first row of the surface that the triangle's
/// bounding box reaches.
pub open spec fn box_lo(t: [Vec3f; 3]) -> (int, int) {
    let x = least(xy(t[0]).0, xy(t[1]).0, xy(t[2]).0) / 65536;
    let y = least(xy(t[0]).1, xy(t[1]).1, xy(t[2]).1) / 65536;
    (if x < 0 { 0 } else { x }, if y < 0 { 0 } else { y })
}

/// The last column and last row of the surface that the triangle's bounding
/// box reaches.
pub open spec fn box_hi(t: [Vec3f; 3], ext: (int, int)) -> (int, int) {
    let x = greatest(xy(t[0]).0, xy(t[1]).0, xy(t[2]).0) / 65536;
    let y = greatest(xy(t[0]).1, xy(t[1]).1, xy(t[2]).1) / 65536;
    (if ext.0 - 1 < x { ext.0 - 1 } else { x }, if ext.1 - 1 < y { ext.1 - 1 } else { y })
}

/// Whether `p` lies in the box from `lo` to `hi`, both included.
pub open spec fn in_box(p: (int, int), lo: (int, int), hi: (int, int)) -> bool {
    lo.0 <= p.0 <= hi.0 && lo.1 <= p.1 <= hi.1
}

/// A whole number between two raw values lies between their floors.
pub proof fn lemma_floor_brackets(lo: int, k: int, hi: int)
    requires
        lo <= k * 65536 <= hi,
    ensures
        lo / 65536 <= k <= hi / 65536,
{
    vstd::arithmetic::div_mod::lemma_fundamental_div_mod(lo, 65536);
    vstd::arithmetic::div_mod::lemma_fundamental_div_mod(hi, 65536);
}

/// Every pixel that a triangle covers on the surface lies in the part of its
/// bounding box that is on the surface.
pub proof fn lemma_hit_in_box(t: [Vec3f; 3], ext: (int, int), p: (int, int))
    requires
        on_screen(ext, p),
        covers(t, p),
    ensures
        in_box(p, box_lo(t), box_hi(t, ext)),
{
    let a = xy(t[0]);
    let b = xy(t[1]);
    let c = xy(t[2]);
    let r = pixel_raw(p);
    assert(edge_cross(a, b, c, a).2 != 0);
    lemma_covered_in_span(a, b, c, r);
    lemma_floor_brackets(least(a.0, b.0, c.0), p.0, greatest(a.0, b.0, c.0));
    lemma_floor_brackets(least(a.1, b.1, c.1), p.1, greatest(a.1, b.1, c.1));
}

/// Two limits that the same hit pixels have passed leave the same pixels
/// and the same depths.
pub proof fn lemma_same_progress<C>(
    t: [Vec3f; 3],
    ext: (int, int),
    depth: Option<Seq<Fixed>>,
    before: Map<(int, int), C>,
    color: C,
    l1: Option<(int, int)>,
    l2: Option<(int, int)>,
)
    requires
        forall|p: (int, int)| #[trigger] hit(t, ext, depth, p) ==> (passed(p, l1) <==> passed(p, l2)),
    ensures
        pixels_upto(t, ext, depth, before, color, l1) == pixels_upto(
            t,
            ext,
            depth,
            before,
            color,
            l2,
        ),
        depth matches Some(z) ==> depth_upto(t, ext, z, l1, false) == depth_upto(
            t,
            ext,
            z,
            l2,
            false,
        ),
{
    assert(pixels_upto(t, ext, depth, before, color, l1) =~= pixels_upto(
        t,
        ext,
        depth,
        before,
        color,
        l2,
    ));
    match depth {
        Some(z) => {
            assert(depth_upto(t, ext, z, l1, false) =~= depth_upto(t, ext, z, l2, false));
        },
        None => {},
    }
}

/// A fill that no hit pixel has passed has changed nothing yet.
pub proof fn lemma_nothing_passed<C>(
    t: [Vec3f; 3],
    ext: (int, int),
    depth: Option<Seq<Fixed>>,
    before: Map<(int, int), C>,
    color: C,
    lim: Option<(int, int)>,
)
    requires
        forall|p: (int, int)| #[trigger] hit(t, ext, depth, p) ==> !passed(p, lim),
    ensures
        pixels_upto(t, ext, depth, before, color, lim) == before,
        depth matches Some(z) ==> depth_upto(t, ext, z, lim, false) == z,
{
    assert(pixels_upto(t, ext, depth, before, color, lim) =~= before);
    match depth {
        Some(z) => {
            assert(depth_upto(t, ext, z, lim, false) =~= z);
        },
        None => {},
    }
}

/// Going past a hit pixel writes its color, and before that its depth.
pub proof fn lemma_step_hit<C>(
    t: [Vec3f; 3],
    ext: (int, int),
    depth: Option<Seq<Fixed>>,
    before: Map<(int, int), C>,
    color: C,
    q: (int, int),
)
    requires
        hit(t, ext, depth, q),
        depth matches Some(z) ==> depth_fits(ext, z.len() as int),
    ensures
        pixels_upto(t, ext, depth, before, color, Some((q.0, q.1 + 1))) == pixels_upto(
            t,
            ext,
            depth,
            before,
            color,
            Some(q),
        ).insert(q, color),
        depth matches Some(z) ==> {
            &&& 0 <= cell(ext, q) < z.len()
            &&& depth_upto(t, ext, z, Some(q), false)[cell(ext, q)] == z[cell(ext, q)]
            &&& depth_upto(t, ext, z, Some(q), true) == depth_upto(
                t,
                ext,
                z,
                Some(q),
                false,
            ).update(cell(ext, q), Fixed(depth_at(t, q) as i32))
            &&& depth_upto(t, ext, z, Some((q.0, q.1 + 1)), false) == depth_upto(
                t,
                ext,
                z,
                Some(q),
                true,
            )
        },
{
    let next = Some((q.0, q.1 + 1));
    assert forall|p: (int, int)| passed(p, next) == (passed(p, Some(q)) || p == q) by {}
    assert(pixels_upto(t, ext, depth, before, color, next) =~= pixels_upto(
        t,
        ext,
        depth,
        before,
        color,
        Some(q),
    ).insert(q, color));
    match depth {
        Some(z) => {
            lemma_cell_in_range(ext, q);
            let w: int = ext.0;
            assert forall|i: int| 0 <= i < z.len() && pixel_of(ext, i) == q implies i == cell(
                ext,
                q,
            ) by {
                vstd::arithmetic::div_mod::lemma_fundamental_div_mod(i, w);
                assert(w * (i / w) == (i / w) * w) by (nonlinear_arith);
            }
            assert(depth_upto(t, ext, z, Some(q), true) =~= depth_upto(
                t,
                ext,
                z,
                Some(q),
                false,
            ).update(cell(ext, q), Fixed(depth_at(t, q) as i32)));
            assert(depth_upto(t, ext, z, next, false) =~= depth_upto(t, ext, z, Some(q), true));
        },
        None => {},
    }
}

/// Going past a pixel that is not hit changes nothing.
pub proof fn lemma_step_miss<C>(
    t: [Vec3f; 3],
    ext: (int, int),
    depth: Option<Seq<Fixed>>,
    before: Map<(int, int), C>,
    color: C,
    q: (int, int),
)
    requires
        !hit(t, ext, depth, q),
    ensures
        pixels_upto(t, ext, depth, before, color, Some((q.0, q.1 + 1))) == pixels_upto(
            t,
            ext,
            depth,
            before,
            color,
            Some(q),
        ),
        depth matches Some(z) ==> depth_upto(t, ext, z, Some((q.0, q.1 + 1)), false)
            == depth_upto(t, ext, z, Some(q), false),
{
    let next = Some((q.0, q.1 + 1));
    assert forall|p: (int, int)| passed(p, next) == (passed(p, Some(q)) || p == q) by {}
    lemma_same_progress(t, ext, depth, before, color, next, Some(q));
}

/// Sets every cell of a depth buffer to the farthest depth there is, as is
/// due before the first fill of a frame: the first fill at a pixel is then
/// nearer than what the buffer holds, unless it is itself the farthest.
pub fn reset_depth(z: &mut [Fixed])
    ensures
        final(z)@.len() == old(z)@.len(),
        forall|i: int| 0 <= i < final(z)@.len() ==> final(z)@[i].0 == i32::MIN,
{
    let n: usize = z.len();
    let mut i: usize = 0;
    while i < n
        invariant
            i <= n,
            n == z@.len(),
            z@.len() == old(z)@.len(),
            forall|j: int| 0 <= j < i ==> z@[j].0 == i32::MIN,
        decreases n - i,
    {
        z[i] = Fixed::min_value();
        i += 1;
    }
}

/// The part of the surface that the triangle's bounding box reaches: its
/// first and last column and row. The box is empty where a last one is
/// below its first.
pub fn bounding_box(t: [Vec3f; 3], size: Vec2i) -> (r: ((i64, i64), (i64, i64)))
    ensures
        (r.0.0 as int, r.0.1 as int) == box_lo(t),
        (r.1.0 as int, r.1.1 as int) == box_hi(t, (size.0[0] as int, size.0[1] as int)),
        0 <= r.0.0 <= 32767,
        0 <= r.0.1 <= 32767,
        r.1.0 <= 32767,
        r.1.1 <= 32767,
{
    let min_x: i64 = t[0].0[0].min(t[1].0[0]).min(t[2].0[0]).floor() as i64;
    let min_y: i64 = t[0].0[1].min(t[1].0[1]).min(t[2].0[1]).floor() as i64;
    let max_x: i64 = t[0].0[0].max(t[1].0[0]).max(t[2].0[0]).floor() as i64;
    let max_y: i64 = t[0].0[1].max(t[1].0[1]).max(t[2].0[1]).floor() as i64;
    let w: i64 = size.0[0] as i64;
    let h: i64 = size.0[1] as i64;
    (
        (if min_x < 0 { 0 } else { min_x }, if min_y < 0 { 0 } else { min_y }),
        (if w - 1 < max_x { w - 1 } else { max_x }, if h - 1 < max_y { h - 1 } else { max_y }),
    )
}

/// Fills the triangle on a target whose size is `size`, testing and writing
/// the depths in `z` when `tested`; `z` is not looked at otherwise. A fill
/// that hits no pixel asks nothing of the target and goes well. A fill fails
/// only where the target refuses a hit pixel, and is then cut short there.
pub fn fill<I: Img>(
    img: &mut I,
    size: Vec2i,
    t: [Vec3f; 3],
    color: I::Color,
    z: &mut [Fixed],
    tested: bool,
) -> (r: Result<(), I::Err>)
    requires
        (size.0[0] as int, size.0[1] as int) == old(img).extent(),
        tested ==> depth_fits(old(img).extent(), old(z)@.len() as int),
    ensures
        steady(*old(img), *final(img)),
        handed_on(old(img).refusals(), final(img).refusals(), r),
        hits_taken(*old(img), t, if tested { Some(old(z)@) } else { None }) ==> r is Ok,
        !tested ==> final(z)@ == old(z)@,
        r is Ok ==> completed(
            t,
            color,
            old(img).extent(),
            old(img).pixels(),
            final(img).pixels(),
            if tested { Some(old(z)@) } else { None },
            if tested { Some(final(z)@) } else { None },
        ),
        r is Err ==> cut_short(
            t,
            color,
            old(img).extent(),
            old(img).pixels(),
            final(img).pixels(),
            if tested { Some(old(z)@) } else { None },
            if tested { Some(final(z)@) } else { None },
        ),
{
    let ghost ext = img.extent();
    let ghost before = img.pixels();
    let ghost depth: Option<Seq<Fixed>> = if tested { Some(z@) } else { None };
    let width: i64 = size.0[0] as i64;
    let (lo, hi) = bounding_box(t, size);
    proof {
        assert forall|p: (int, int)| #[trigger] hit(t, ext, depth, p) implies in_box(
            p,
            box_lo(t),
            box_hi(t, ext),
        ) by {
            lemma_hit_in_box(t, ext, p);
        }
    }
    if lo.0 > hi.0 || lo.1 > hi.1 {
        proof {
            lemma_nothing_passed(t, ext, depth, before, color, None);
        }
        return Ok(());
    }
    proof {
        lemma_nothing_passed(t, ext, depth, before, color, Some((lo.0 as int, lo.1 as int)));
    }
    let mut x: i64 = lo.0;
    while x <= hi.0
        invariant
            lo.0 <= x <= hi.0 + 1,
            lo.1 <= hi.1,
            0 <= lo.0 <= 32767,
            0 <= lo.1 <= 32767,
            hi.0 <= 32767,
            hi.1 <= 32767,
            (lo.0 as int, lo.1 as int) == box_lo(t),
            (hi.0 as int, hi.1 as int) == box_hi(t, ext),
            ext == old(img).extent(),
            ext == (size.0[0] as int, size.0[1] as int),
            width == ext.0,
            before == old(img).pixels(),
            depth == (if tested { Some(old(z)@) } else { None::<Seq<Fixed>> }),
            tested ==> depth_fits(ext, old(z)@.len() as int),
            z@.len() == old(z)@.len(),
            !tested ==> z@ == old(z)@,
            forall|p: (int, int)| #[trigger]
                hit(t, ext, depth, p) ==> in_box(p, box_lo(t), box_hi(t, ext)),
            img.extent() == ext,
            steady(*old(img), *img),
            img.refusals() == old(img).refusals(),
            img.pixels() == pixels_upto(t, ext, depth, before, color, Some((x as int, lo.1 as int))),
            depth matches Some(z0) ==> z@ == depth_upto(
                t,
                ext,
                z0,
                Some((x as int, lo.1 as int)),
                false,
            ),
        decreases hi.0 + 1 - x,
    {
        let mut y: i64 = lo.1;
        while y <= hi.1
            invariant
                lo.0 <= x <= hi.0,
                lo.1 <= y <= hi.1 + 1,
                0 <= lo.0 <= 32767,
                0 <= lo.1 <= 32767,
                hi.0 <= 32767,
                hi.1 <= 32767,
                (lo.0 as int, lo.1 as int) == box_lo(t),
                (hi.0 as int, hi.1 as int) == box_hi(t, ext),
                ext == old(img).extent(),
                ext == (size.0[0] as int, size.0[1] as int),
                width == ext.0,
                before == old(img).pixels(),
                depth == (if tested { Some(old(z)@) } else { None::<Seq<Fixed>> }),
                tested ==> depth_fits(ext, old(z)@.len() as int),
                z@.len() == old(z)@.len(),
                !tested ==> z@ == old(z)@,
                img.extent() == ext,
                steady(*old(img), *img),
                img.refusals() == old(img).refusals(),
                img.pixels() == pixels_upto(t, ext, depth, before, color, Some((x as int, y as int))),
                depth matches Some(z0) ==> z@ == depth_upto(
                    t,
                    ext,
                    z0,
                    Some((x as int, y as int)),
                    false,
                ),
            decreases hi.1 + 1 - y,
        {
            let ghost q: (int, int) = (x as int, y as int);
            assert(on_screen(ext, q));
            let at: Vec3f = Vector([Fixed::from_int(x as i32), Fixed::from_int(y as i32), Fixed::zero()]);
            assert(xy(at) == pixel_raw(q));
            let mut write: bool = false;
            match barycentric(t, at) {
                Some(w) => {
                    if w.inside() {
                        if tested {
                            let d: Fixed = w.interpolate(t[0].0[2], t[1].0[2], t[2].0[2]);
                            proof {
                                lemma_cell_in_range(ext, q);
                                lemma_step_hit_cell(t, ext, depth.unwrap(), q);
                                assert(ext.0 * ext.1 <= z@.len());
                                assert(z@.len() == z.len() <= usize::MAX);
                                assert(0 <= y * width <= x + y * width < z.len());
                            }
                            let zpos: usize = x as usize + y as usize * width as usize;
                            if z[zpos].0 < d.0 {
                                proof {
                                    lemma_step_hit(t, ext, depth, before, color, q);
                                }
                                z[zpos] = d;
                                write = true;
                            }
                        } else {
                            write = true;
                        }
                    }
                },
                None => {},
            }
            assert(write == hit(t, ext, depth, q));
            if write {
                proof {
                    lemma_step_hit(t, ext, depth, before, color, q);
                }
                match img.set_px(Vector([x as i32, y as i32]), color) {
                    Ok(()) => {},
                    Err(e) => {
                        assert(hit(t, old(img).extent(), depth, q) && !old(img).takes(q));
                        return Err(e);
                    },
                }
            } else {
                proof {
                    lemma_step_miss(t, ext, depth, before, color, q);
                }
            }
            y += 1;
        }
        proof {
            lemma_same_progress(
                t,
                ext,
                depth,
                before,
                color,
                Some((x as int, hi.1 + 1)),
                Some((x + 1, lo.1 as int)),
            );
        }
        x += 1;
    }
    proof {
        lemma_same_progress(t, ext, depth, before, color, Some((hi.0 + 1, lo.1 as int)), None);
    }
    Ok(())
}

/// Before a fill reaches a pixel, the pixel's cell holds what it held at
/// the start.
pub proof fn lemma_step_hit_cell(t: [Vec3f; 3], ext: (int, int), z: Seq<Fixed>, q: (int, int))
    requires
        on_screen(ext, q),
        depth_fits(ext, z.len() as int),
    ensures
        0 <= cell(ext, q) < z.len(),
        depth_upto(t, ext, z, Some(q), false)[cell(ext, q)] == z[cell(ext, q)],
{
    lemma_cell_in_range(ext, q);
}

/// Fills the screen-space triangle `corners` with `color`: every pixel of the
/// surface that the triangle covers is written, columns from left to right
/// and each from top to bottom. With a depth buffer, a pixel is written only
/// where the triangle is strictly nearer than the buffer says, and the
/// buffer then takes the triangle's depth there. The first write the target
/// refuses ends the fill, and its error is the one returned; where the fill
/// fails with nothing refused, the error is what the target answered when
/// asked for its size. On a target
/// that is sure to tell its size and to take every pixel hit, the fill goes
/// well.
pub fn tri<I: Img>(img: &mut I, corners: [Vec3f; 3], color: I::Color, zbuffer: Option<&mut [Fixed]>) -> (r:
    Result<(), I::Err>)
    requires
        zbuffer matches Some(z) ==> depth_fits(old(img).extent(), z@.len() as int),
    ensures
        steady(*old(img), *final(img)),
        filled(
            corners,
            color,
            old(img).extent(),
            old(img).pixels(),
            final(img).pixels(),
            match zbuffer {
                Some(z) => Some(z@),
                None => None,
            },
            match zbuffer {
                Some(z) => Some(final(z)@),
                None => None,
            },
            old(img).refusals(),
            final(img).refusals(),
            old(img).tells_size(),
            r,
        ),
        r matches Err(e) ==> (final(img).refusals() == old(img).refusals() ==> call_ensures(
            I::size,
            (&*old(img),),
            Err::<Vec2i, I::Err>(e),
        )),
        old(img).tells_size() && hits_taken(
            *old(img),
            corners,
            match zbuffer {
                Some(z) => Some(z@),
                None => None,
            },
        ) ==> r is Ok,
{
    let size: Vec2i = match img.size() {
        Ok(size) => size,
        Err(e) => {
            return Err(e);
        },
    };
    let r = match zbuffer {
        Some(z) => fill(img, size, corners, color, z, true),
        None => {
            let mut none: [Fixed; 0] = [];
            fill(img, size, corners, color, &mut none, false)
        },
    };
    proof {
        // a fill that fails has added its error to the refusals
        if r is Err {
            assert(img.refusals().len() == old(img).refusals().len() + 1);
        }
    }
    r
}

/// Whether none of the weights of the raw point `p` in the triangle is
/// negative.
pub open spec fn weights_nonneg(a: (int, int), b: (int, int), c: (int, int), p: (int, int)) -> bool {
    let w = weights(a, b, c, p);
    w.0 >= 0 && w.1 >= 0 && w.2 >= 0
}

/// Whether the raw point `p` lies strictly inside the triangle: on the inner
/// side of each of its edges.
pub open spec fn strictly_inside(a: (int, int), b: (int, int), c: (int, int), p: (int, int)) -> bool {
    let area = orient(a, b, c);
    ||| area > 0 && orient(a, b, p) > 0 && orient(b, c, p) > 0 && orient(c, a, p) > 0
    ||| area < 0 && orient(a, b, p) < 0 && orient(b, c, p) < 0 && orient(c, a, p) < 0
}

/// The numerators of the weights are the signed areas that the point spans
/// with each edge, and the denominator is the signed area of the triangle,
/// all negated.
pub proof fn lemma_cross_is_orient(a: (int, int), b: (int, int), c: (int, int), p: (int, int))
    ensures
        edge_cross(a, b, c, p).0 == -orient(a, b, p),
        edge_cross(a, b, c, p).1 == -orient(c, a, p),
        edge_cross(a, b, c, p).2 == -orient(a, b, c),
        edge_cross(a, b, c, p).2 - edge_cross(a, b, c, p).0 - edge_cross(a, b, c, p).1 == -orient(
            b,
            c,
            p,
        ),
{
    let bx = b.0 - a.0;
    let by = b.1 - a.1;
    let cx = c.0 - a.0;
    let cy = c.1 - a.1;
    let px = p.0 - a.0;
    let py = p.1 - a.1;
    // the first component
    assert(bx * (a.1 - p.1) == -(bx * py)) by (nonlinear_arith)
        requires
            py == p.1 - a.1,
    ;
    assert((a.0 - p.0) * by == -(by * px)) by (nonlinear_arith)
        requires
            px == p.0 - a.0,
    ;
    // the second component
    assert((a.0 - p.0) * cy == -(px * cy)) by (nonlinear_arith)
        requires
            px == p.0 - a.0,
    ;
    assert(cx * (a.1 - p.1) == -(cx * py)) by (nonlinear_arith)
        requires
            py == p.1 - a.1,
    ;
    assert((a.0 - c.0) * (p.1 - c.1) == -(cx * py) + cx * cy) by (nonlinear_arith)
        requires
            cx == c.0 - a.0,
            py == p.1 - a.1,
            cy == c.1 - a.1,
    ;
    assert((a.1 - c.1) * (p.0 - c.0) == -(px * cy) + cx * cy) by (nonlinear_arith)
        requires
            cx == c.0 - a.0,
            px == p.0 - a.0,
            cy == c.1 - a.1,
    ;
    // the third component
    assert(cx * by == by * cx) by (nonlinear_arith);
    // the first numerator
    assert((c.0 - b.0) * (p.1 - b.1) == cx * py - cx * by - bx * py + bx * by) by (nonlinear_arith)
        requires
            cx == c.0 - a.0,
            bx == b.0 - a.0,
            py == p.1 - a.1,
            by == b.1 - a.1,
    ;
    assert((c.1 - b.1) * (p.0 - b.0) == px * cy - bx * cy - by * px + bx * by) by (nonlinear_arith)
        requires
            cy == c.1 - a.1,
            bx == b.0 - a.0,
            px == p.0 - a.0,
            by == b.1 - a.1,
    ;
}

/// The weights of a point in a triangle of nonzero area have a positive
/// denominator and sum to exactly one.
pub proof fn lemma_weights_sum_to_one(a: (int, int), b: (int, int), c: (int, int), p: (int, int))
    requires
        orient(a, b, c) != 0,
    ensures
        weights(a, b, c, p).3 > 0,
        weights(a, b, c, p).0 + weights(a, b, c, p).1 + weights(a, b, c, p).2 == weights(
            a,
            b,
            c,
            p,
        ).3,
{
    lemma_cross_is_orient(a, b, c, p);
}

/// Every weight of a point strictly inside a triangle is positive.
pub proof fn lemma_weights_strictly_inside(
    a: (int, int),
    b: (int, int),
    c: (int, int),
    p: (int, int),
)
    requires
        strictly_inside(a, b, c, p),
    ensures
        weights(a, b, c, p).0 > 0,
        weights(a, b, c, p).1 > 0,
        weights(a, b, c, p).2 > 0,
        weights(a, b, c, p).3 > 0,
{
    lemma_cross_is_orient(a, b, c, p);
}

/// At a corner of a triangle of nonzero area, the corner's weight is one
/// and the other two are zero.
pub proof fn lemma_weights_at_corner(a: (int, int), b: (int, int), c: (int, int))
    requires
        orient(a, b, c) != 0,
    ensures
        weights(a, b, c, a) == (weights(a, b, c, a).3, 0int, 0int, weights(a, b, c, a).3),
        weights(a, b, c, b) == (0int, weights(a, b, c, b).3, 0int, weights(a, b, c, b).3),
        weights(a, b, c, c) == (0int, 0int, weights(a, b, c, c).3, weights(a, b, c, c).3),
{
    lemma_cross_is_orient(a, b, c, a);
    lemma_cross_is_orient(a, b, c, b);
    lemma_cross_is_orient(a, b, c, c);
    lemma_orient_flat(a, b);
    lemma_orient_flat(b, c);
    lemma_orient_flat(c, a);
    lemma_orient_turn(a, b, c);
}

/// Two corners and one of them again span no area.
pub proof fn lemma_orient_flat(a: (int, int), b: (int, int))
    ensures
        orient(a, b, a) == 0,
        orient(a, b, b) == 0,
{
    assert((b.0 - a.0) * (a.1 - a.1) == 0) by (nonlinear_arith);
    assert((b.1 - a.1) * (a.0 - a.0) == 0) by (nonlinear_arith);
    assert((b.0 - a.0) * (b.1 - a.1) == (b.1 - a.1) * (b.0 - a.0)) by (nonlinear_arith);
}

/// The signed area does not depend on the corner one starts from.
pub proof fn lemma_orient_turn(a: (int, int), b: (int, int), c: (int, int))
    ensures
        orient(b, c, a) == orient(a, b, c),
        orient(c, a, b) == orient(a, b, c),
{
    lemma_cross_is_orient(a, b, c, a);
    lemma_cross_is_orient(a, b, c, b);
    lemma_orient_flat(a, b);
    lemma_orient_flat(c, a);
}

/// A triangle that does not count as degenerate and lies wholly on the
/// surface fills, without a depth buffer, exactly the pixels none of whose
/// weights is negative.
pub proof fn lemma_fill_is_coverage(t: [Vec3f; 3], ext: (int, int))
    requires
        !degenerate(xy(t[0]), xy(t[1]), xy(t[2])),
        forall|i: int|
            0 <= i < 3 ==> 0 <= (#[trigger] xy(t[i])).0 <= (ext.0 - 1) * 65536 && 0 <= xy(t[i]).1
                <= (ext.1 - 1) * 65536,
    ensures
        Set::new(|p: (int, int)| hit(t, ext, None, p)) == Set::new(
            |p: (int, int)| weights_nonneg(xy(t[0]), xy(t[1]), xy(t[2]), pixel_raw(p)),
        ),
{
    let a = xy(t[0]);
    let b = xy(t[1]);
    let c = xy(t[2]);
    assert forall|p: (int, int)| weights_nonneg(a, b, c, pixel_raw(p)) implies on_screen(
        ext,
        p,
    ) by {
        assert(edge_cross(a, b, c, a).2 != 0);
        lemma_covered_in_span(a, b, c, pixel_raw(p));
    }
    assert(Set::new(|p: (int, int)| hit(t, ext, None, p)) =~= Set::new(
        |p: (int, int)| weights_nonneg(xy(t[0]), xy(t[1]), xy(t[2]), pixel_raw(p)),
    ));
}

/// What a complete fill without a depth buffer leaves of a triangle that
/// does not count as degenerate and lies wholly on the surface: the color at
/// exactly the pixels none of whose weights is negative, and every other
/// pixel as it was.
pub proof fn lemma_fill_paints_coverage<C>(
    t: [Vec3f; 3],
    ext: (int, int),
    before: Map<(int, int), C>,
    color: C,
)
    requires
        !degenerate(xy(t[0]), xy(t[1]), xy(t[2])),
        forall|i: int|
            0 <= i < 3 ==> 0 <= (#[trigger] xy(t[i])).0 <= (ext.0 - 1) * 65536 && 0 <= xy(t[i]).1
                <= (ext.1 - 1) * 65536,
    ensures
        pixels_upto(t, ext, None, before, color, None) == Map::new(
            |p: (int, int)|
                before.dom().contains(p) || weights_nonneg(
                    xy(t[0]),
                    xy(t[1]),
                    xy(t[2]),
                    pixel_raw(p),
                ),
            |p: (int, int)|
                if weights_nonneg(xy(t[0]), xy(t[1]), xy(t[2]), pixel_raw(p)) {
                    color
                } else {
                    before[p]
                },
        ),
{
    lemma_fill_is_coverage(t, ext);
    assert forall|p: (int, int)|
        hit(t, ext, None, p) == weights_nonneg(xy(t[0]), xy(t[1]), xy(t[2]), pixel_raw(p)) by {
        let filled_set = Set::new(|p: (int, int)| hit(t, ext, None, p));
        let covered_set = Set::new(
            |p: (int, int)| weights_nonneg(xy(t[0]), xy(t[1]), xy(t[2]), pixel_raw(p)),
        );
        assert(filled_set.contains(p) == covered_set.contains(p));
    }
    assert(pixels_upto(t, ext, None, before, color, None) =~= Map::new(
        |p: (int, int)|
            before.dom().contains(p) || weights_nonneg(xy(t[0]), xy(t[1]), xy(t[2]), pixel_raw(p)),
        |p: (int, int)|
            if weights_nonneg(xy(t[0]), xy(t[1]), xy(t[2]), pixel_raw(p)) {
                color
            } else {
                before[p]
            },
    ));
}

/// A triangle whose corners lie on one line fills nothing, with or without
/// a depth buffer.
pub proof fn lemma_collinear_fills_nothing<C>(
    t: [Vec3f; 3],
    ext: (int, int),
    depth: Option<Seq<Fixed>>,
    before: Map<(int, int), C>,
    color: C,
)
    requires
        orient(xy(t[0]), xy(t[1]), xy(t[2])) == 0,
    ensures
        forall|p: (int, int)| !hit(t, ext, depth, p),
        pixels_upto(t, ext, depth, before, color, None) == before,
        depth matches Some(z) ==> depth_upto(t, ext, z, None, false) == z,
{
    lemma_cross_is_orient(xy(t[0]), xy(t[1]), xy(t[2]), xy(t[0]));
    assert(degenerate(xy(t[0]), xy(t[1]), xy(t[2])));
    assert forall|p: (int, int)| !hit(t, ext, depth, p) by {
        assert(bary(t, pixel_raw(p)) is None);
    }
    lemma_nothing_passed(t, ext, depth, before, color, None);
}

/// Of two triangles that cover one pixel, filled one after the other into a
/// depth buffer that is farther there than the nearer of them, the nearer
/// one gives the pixel its color and the cell its depth, whichever of the two
/// is filled first.
pub proof fn lemma_nearer_wins<C>(
    t1: [Vec3f; 3],
    c1: C,
    t2: [Vec3f; 3],
    c2: C,
    ext: (int, int),
    before: Map<(int, int), C>,
    depth: Seq<Fixed>,
    p: (int, int),
)
    requires
        on_screen(ext, p),
        depth_fits(ext, depth.len() as int),
        covers(t1, p),
        covers(t2, p),
        depth_at(t1, p) > depth_at(t2, p),
        depth[cell(ext, p)].0 < depth_at(t1, p),
    ensures
        ({
            let mid = pixels_upto(t1, ext, Some(depth), before, c1, None);
            let mid_depth = depth_upto(t1, ext, depth, None, false);
            &&& pixels_upto(t2, ext, Some(mid_depth), mid, c2, None)[p] == c1
            &&& depth_upto(t2, ext, mid_depth, None, false)[cell(ext, p)].0 == depth_at(t1, p)
        }),
        ({
            let mid = pixels_upto(t2, ext, Some(depth), before, c2, None);
            let mid_depth = depth_upto(t2, ext, depth, None, false);
            &&& pixels_upto(t1, ext, Some(mid_depth), mid, c1, None)[p] == c1
            &&& depth_upto(t1, ext, mid_depth, None, false)[cell(ext, p)].0 == depth_at(t1, p)
        }),
{
    lemma_cell_in_range(ext, p);
    let i = cell(ext, p);
    {
        let mid_depth = depth_upto(t1, ext, depth, None, false);
        assert(hit(t1, ext, Some(depth), p));
        assert(mid_depth[i].0 == depth_at(t1, p));
        assert(!hit(t2, ext, Some(mid_depth), p));
    }
    {
        let mid_depth = depth_upto(t2, ext, depth, None, false);
        assert(mid_depth[i].0 < depth_at(t1, p));
        assert(hit(t1, ext, Some(mid_depth), p));
    }
}

} // verus!
