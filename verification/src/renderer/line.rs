use crate::math::vector::Vec2i;
use crate::math::vector::Vector;
use crate::renderer::handed_on;
use crate::renderer::steady;
use crate::renderer::Img;
use vstd::arithmetic::div_mod::lemma_fundamental_div_mod_converse_div;
use vstd::prelude::*;

verus! {

/// The pixel a position names.
pub open spec fn pos(v: Vec2i) -> (int, int) {
    (v.0[0] as int, v.0[1] as int)
}

/// The absolute value of `v`.
pub open spec fn abs(v: int) -> int {
    if v < 0 {
        -v
    } else {
        v
    }
}

/// Whether the segment from `s` to `e` is walked along y: its span in x is
/// the shorter one.
pub open spec fn steep(s: (int, int), e: (int, int)) -> bool {
    abs(s.0 - e.0) < abs(s.1 - e.1)
}

/// The end the walk starts from, as (walked coordinate, other coordinate):
/// the one with the smaller walked coordinate, and `s` when they are equal.
pub open spec fn walk_start(s: (int, int), e: (int, int)) -> (int, int) {
    let a = if steep(s, e) { (s.1, s.0) } else { s };
    let b = if steep(s, e) { (e.1, e.0) } else { e };
    if a.0 > b.0 { b } else { a }
}

/// The end the walk stops at, as (walked coordinate, other coordinate).
pub open spec fn walk_end(s: (int, int), e: (int, int)) -> (int, int) {
    let a = if steep(s, e) { (s.1, s.0) } else { s };
    let b = if steep(s, e) { (e.1, e.0) } else { e };
    if a.0 > b.0 { a } else { b }
}

/// How far the other coordinate has moved after `i` steps of a walk that
/// spans `dx` in the walked coordinate and `ady` in the other: `i * ady / dx`
/// rounded to the nearest integer, a tie going down.
pub open spec fn drift(i: int, dx: int, ady: int) -> int {
    if dx <= 0 {
        0
    } else {
        (2 * i * ady + dx - 1) / (2 * dx)
    }
}

/// The `i`-th pixel of the segment from `s` to `e`.
pub open spec fn line_point(s: (int, int), e: (int, int), i: int) -> (int, int) {
    let a = walk_start(s, e);
    let b = walk_end(s, e);
    let k = drift(i, b.0 - a.0, abs(b.1 - a.1));
    let other = if b.1 > a.1 { a.1 + k } else { a.1 - k };
    if steep(s, e) {
        (other, a.0 + i)
    } else {
        (a.0 + i, other)
    }
}

/// The pixels of the segment from `s` to `e`, in the order they are drawn:
/// one for each value of the coordinate with the longer span.
pub open spec fn line_points(s: (int, int), e: (int, int)) -> Seq<(int, int)> {
    Seq::new(
        (walk_end(s, e).0 - walk_start(s, e).0 + 1) as nat,
        |i: int| line_point(s, e, i),
    )
}

/// The pixel map after each of `pts` was set to `color`, in order.
pub open spec fn paint<C>(before: Map<(int, int), C>, pts: Seq<(int, int)>, color: C) -> Map<
    (int, int),
    C,
>
    decreases pts.len(),
{
    if pts.len() == 0 {
        before
    } else {
        paint(before, pts.drop_last(), color).insert(pts.last(), color)
    }
}

/// What drawing `pts` in `color` leaves behind: all of them when it went
/// well, and those before the first refused pixel when it did not.
pub open spec fn drawn<C>(
    before: Map<(int, int), C>,
    after: Map<(int, int), C>,
    pts: Seq<(int, int)>,
    color: C,
    ok: bool,
) -> bool {
    if ok {
        after == paint(before, pts, color)
    } else {
        exists|k: int| 0 <= k < pts.len() && after == paint(before, #[trigger] pts.take(k), color)
    }
}

/// Whether the target is sure to take a write at each of `pts`.
pub open spec fn all_taken<I: Img>(target: I, pts: Seq<(int, int)>) -> bool {
    forall|i: int| 0 <= i < pts.len() ==> target.takes(#[trigger] pts[i])
}

/// The drift stays between zero and the span of the other coordinate.
pub proof fn lemma_drift_bound(i: int, dx: int, ady: int)
    requires
        0 <= i <= dx,
        0 <= ady <= dx,
    ensures
        0 <= drift(i, dx, ady) <= ady,
{
    if dx > 0 {
        let n: int = 2 * i * ady + dx - 1;
        let k: int = n / (2 * dx);
        assert(0 <= 2 * i * ady <= 2 * dx * ady) by (nonlinear_arith)
            requires
                0 <= i <= dx,
                0 <= ady,
        ;
        vstd::arithmetic::div_mod::lemma_fundamental_div_mod(n, 2 * dx);
        assert(0 <= k <= ady) by (nonlinear_arith)
            requires
                n == (2 * dx) * k + n % (2 * dx),
                0 <= n % (2 * dx) < 2 * dx,
                0 <= n <= 2 * dx * ady + dx - 1,
                dx > 0,
                ady >= 0,
        ;
    }
}

/// A segment drawn from `e` to `s` has the pixels of the segment drawn from
/// `s` to `e`, in the same order.
pub proof fn lemma_line_symmetric(s: (int, int), e: (int, int))
    ensures
        line_points(s, e) == line_points(e, s),
{
    assert(steep(s, e) == steep(e, s));
    assert(walk_start(s, e) == walk_start(e, s));
    assert(walk_end(s, e) == walk_end(e, s));
    assert forall|i: int| line_point(s, e, i) == line_point(e, s, i) by {}
    assert(line_points(s, e) =~= line_points(e, s));
}

/// Before the first step the other coordinate has not moved.
pub proof fn lemma_drift_start(dx: int, ady: int)
    ensures
        drift(0, dx, ady) == 0,
{
    if dx > 0 {
        assert(2 * 0 * ady + dx - 1 == 0 * (2 * dx) + (dx - 1)) by (nonlinear_arith);
        lemma_fundamental_div_mod_converse_div(2 * 0 * ady + dx - 1, 2 * dx, 0, dx - 1);
    }
}

/// No step of a walk along a level segment leaves its level.
pub proof fn lemma_drift_level(i: int, dx: int)
    requires
        0 <= i,
    ensures
        drift(i, dx, 0) == 0,
{
    if dx > 0 {
        assert(2 * i * 0 + dx - 1 == 0 * (2 * dx) + (dx - 1)) by (nonlinear_arith);
        lemma_fundamental_div_mod_converse_div(2 * i * 0 + dx - 1, 2 * dx, 0, dx - 1);
    }
}

/// A horizontal segment is one pixel for each x between its ends, both
/// included, all on its row: the span plus one pixels, with no gap.
pub proof fn lemma_line_horizontal(s: (int, int), e: (int, int))
    requires
        s.1 == e.1,
    ensures
        line_points(s, e).len() == abs(e.0 - s.0) + 1,
        forall|i: int|
            0 <= i <= abs(e.0 - s.0) ==> #[trigger] line_points(s, e)[i] == (
                (if s.0 <= e.0 { s.0 } else { e.0 }) + i,
                s.1,
            ),
{
    assert(!steep(s, e));
    assert forall|i: int| 0 <= i <= abs(e.0 - s.0) implies #[trigger] line_points(s, e)[i] == (
        (if s.0 <= e.0 { s.0 } else { e.0 }) + i,
        s.1,
    ) by {
        lemma_drift_level(i, abs(e.0 - s.0));
    }
}

/// A vertical segment is one pixel for each y between its ends, both
/// included, all on its column: the span plus one pixels, with no gap.
pub proof fn lemma_line_vertical(s: (int, int), e: (int, int))
    requires
        s.0 == e.0,
    ensures
        line_points(s, e).len() == abs(e.1 - s.1) + 1,
        forall|i: int|
            0 <= i <= abs(e.1 - s.1) ==> #[trigger] line_points(s, e)[i] == (
                s.0,
                (if s.1 <= e.1 { s.1 } else { e.1 }) + i,
            ),
{
    assert forall|i: int| 0 <= i <= abs(e.1 - s.1) implies #[trigger] line_points(s, e)[i] == (
        s.0,
        (if s.1 <= e.1 { s.1 } else { e.1 }) + i,
    ) by {
        lemma_drift_level(i, abs(e.1 - s.1));
    }
}

/// A segment has one pixel more than its longer span; it starts at one end
/// and stops at the other, and each pixel is next to the one before it.
pub proof fn lemma_line_connected(s: (int, int), e: (int, int))
    ensures
        line_points(s, e).len() == (if steep(s, e) { abs(s.1 - e.1) } else { abs(s.0 - e.0) }) + 1,
        line_points(s, e)[0] == s || line_points(s, e)[0] == e,
        line_points(s, e).last() == s || line_points(s, e).last() == e,
        line_points(s, e)[0] == s ==> line_points(s, e).last() == e,
        line_points(s, e)[0] == e ==> line_points(s, e).last() == s,
        forall|i: int|
            0 <= i < line_points(s, e).len() - 1 ==> {
                let p = #[trigger] line_points(s, e)[i];
                let q = line_points(s, e)[i + 1];
                abs(q.0 - p.0) <= 1 && abs(q.1 - p.1) <= 1 && p != q
            },
{
    let a = walk_start(s, e);
    let b = walk_end(s, e);
    let dx: int = b.0 - a.0;
    let ady: int = abs(b.1 - a.1);
    lemma_drift_start(dx, ady);
    assert(drift(dx, dx, ady) == ady) by {
        if dx > 0 {
            assert(2 * dx * ady + dx - 1 == ady * (2 * dx) + (dx - 1)) by (nonlinear_arith);
            lemma_fundamental_div_mod_converse_div(2 * dx * ady + dx - 1, 2 * dx, ady, dx - 1);
        }
    }
    assert(line_points(s, e).last() == line_point(s, e, dx));
    assert forall|i: int| 0 <= i < line_points(s, e).len() - 1 implies {
        let p = #[trigger] line_points(s, e)[i];
        let q = line_points(s, e)[i + 1];
        abs(q.0 - p.0) <= 1 && abs(q.1 - p.1) <= 1 && p != q
    } by {
        lemma_drift_step(i, dx, ady);
    }
}

/// One step moves the other coordinate by at most one.
pub proof fn lemma_drift_step(i: int, dx: int, ady: int)
    requires
        0 <= i < dx,
        0 <= ady <= dx,
    ensures
        drift(i, dx, ady) <= drift(i + 1, dx, ady) <= drift(i, dx, ady) + 1,
{
    let n0: int = 2 * i * ady + dx - 1;
    let n1: int = 2 * (i + 1) * ady + dx - 1;
    assert(n1 == n0 + 2 * ady) by (nonlinear_arith)
        requires
            n0 == 2 * i * ady + dx - 1,
            n1 == 2 * (i + 1) * ady + dx - 1,
    ;
    assert(0 <= n0) by (nonlinear_arith)
        requires
            n0 == 2 * i * ady + dx - 1,
            0 <= i,
            0 <= ady,
            dx > 0,
    ;
    let d: int = 2 * dx;
    vstd::arithmetic::div_mod::lemma_fundamental_div_mod(n0, d);
    vstd::arithmetic::div_mod::lemma_fundamental_div_mod(n1, d);
    let k0: int = n0 / d;
    let k1: int = n1 / d;
    assert(k0 <= k1 <= k0 + 1) by (nonlinear_arith)
        requires
            n0 == d * k0 + n0 % d,
            n1 == d * k1 + n1 % d,
            0 <= n0 % d < d,
            0 <= n1 % d < d,
            n0 <= n1 <= n0 + d,
            d > 0,
    ;
}

/// Draws the straight segment from `s` to `e`: one pixel for each value of
/// the coordinate with the longer span, from its smaller end to its larger.
/// The first write the target refuses ends the drawing.
pub fn line<I: Img>(c: &mut I, s: Vec2i, e: Vec2i, color: I::Color) -> (r: Result<(), I::Err>)
    ensures
        steady(*old(c), *final(c)),
        drawn(old(c).pixels(), final(c).pixels(), line_points(pos(s), pos(e)), color, r is Ok),
        handed_on(old(c).refusals(), final(c).refusals(), r),
        all_taken(*old(c), line_points(pos(s), pos(e))) ==> r is Ok,
{
    let sx: i64 = s.0[0] as i64;
    let sy: i64 = s.0[1] as i64;
    let ex: i64 = e.0[0] as i64;
    let ey: i64 = e.0[1] as i64;
    let span_x: i64 = if sx - ex < 0 { ex - sx } else { sx - ex };
    let span_y: i64 = if sy - ey < 0 { ey - sy } else { sy - ey };
    let is_steep: bool = span_x < span_y;
    let (sa, sb, ea, eb): (i64, i64, i64, i64) = if is_steep {
        (sy, sx, ey, ex)
    } else {
        (sx, sy, ex, ey)
    };
    let (a0, b0, a1, b1): (i64, i64, i64, i64) = if sa > ea {
        (ea, eb, sa, sb)
    } else {
        (sa, sb, ea, eb)
    };
    let dx: i64 = a1 - a0;
    let dy: i64 = b1 - b0;
    let ady: i64 = if dy < 0 { -dy } else { dy };
    let derror2: i64 = ady * 2;
    let ghost pts = line_points(pos(s), pos(e));
    assert(walk_start(pos(s), pos(e)) == (a0 as int, b0 as int));
    assert(walk_end(pos(s), pos(e)) == (a1 as int, b1 as int));
    assert(pts.len() == dx + 1);
    assert(ady <= dx);

    let mut error2: i64 = 0;
    let mut y: i64 = b0;
    let mut x: i64 = a0;
    let ghost mut k: int = 0;
    proof {
        lemma_drift_start(dx as int, ady as int);
        // what the loop starts from: no step taken, no error gathered
        assert(x - a0 == 0 && k == 0);
        assert(2 * (x - a0) * ady - 2 * k * dx == 0) by (nonlinear_arith)
            requires
                x - a0 == 0,
                k == 0,
        ;
        assert(pts.take(x - a0) =~= Seq::<(int, int)>::empty());
        assert(c.pixels() == paint(old(c).pixels(), pts.take(x - a0), color));
    }
    while x <= a1
        invariant
            a0 <= x <= a1 + 1,
            dx == a1 - a0,
            0 <= ady <= dx,
            derror2 == 2 * ady,
            i32::MIN <= a0 <= a1 <= i32::MAX,
            i32::MIN <= b0 <= i32::MAX,
            i32::MIN <= b1 <= i32::MAX,
            ady == abs(b1 - b0),
            is_steep == steep(pos(s), pos(e)),
            walk_start(pos(s), pos(e)) == (a0 as int, b0 as int),
            walk_end(pos(s), pos(e)) == (a1 as int, b1 as int),
            pts == line_points(pos(s), pos(e)),
            pts.len() == dx + 1,
            steady(*old(c), *c),
            c.refusals() == old(c).refusals(),
            c.pixels() == paint(old(c).pixels(), pts.take(x - a0), color),
            x <= a1 ==> k == drift(x - a0, dx as int, ady as int),
            x <= a1 ==> y == (if b1 > b0 { b0 + k } else { b0 - k }),
            x <= a1 ==> error2 == 2 * (x - a0) * ady - 2 * k * dx,
            x <= a1 ==> -dx <= error2 <= dx,
            x <= a1 && dx > 0 ==> -dx < error2,
        decreases a1 + 1 - x,
    {
        let ghost i: int = x - a0;
        proof {
            lemma_drift_bound(i, dx as int, ady as int);
            assert(pts[i] == line_point(pos(s), pos(e), i));
        }
        let p: Vec2i = if is_steep {
            Vector([y as i32, x as i32])
        } else {
            Vector([x as i32, y as i32])
        };
        assert(pos(p) == pts[i]);
        match c.set_px(p, color) {
            Ok(()) => {},
            Err(err) => {
                assert(!old(c).takes(pts[i]));
                return Err(err);
            },
        }
        proof {
            let next = pts.take(i + 1);
            assert(next.drop_last() == pts.take(i));
            assert(next.last() == pts[i]);
        }
        if x < a1 {
            proof {
                let i1: int = i + 1;
                assert(2 * i1 * ady == 2 * i * ady + 2 * ady) by (nonlinear_arith)
                    requires
                        i1 == i + 1,
                ;
                if error2 + derror2 > dx {
                    let k1: int = k + 1;
                    assert(2 * k1 * dx == 2 * k * dx + 2 * dx) by (nonlinear_arith)
                        requires
                            k1 == k + 1,
                    ;
                    let e1: int = error2 + derror2 - 2 * dx;
                    assert(k1 * (2 * dx) == 2 * k1 * dx) by (nonlinear_arith);
                    lemma_fundamental_div_mod_converse_div(
                        2 * i1 * ady + dx - 1,
                        2 * dx,
                        k1,
                        e1 + dx - 1,
                    );
                    k = k1;
                } else {
                    let e1: int = error2 + derror2;
                    assert(k * (2 * dx) == 2 * k * dx) by (nonlinear_arith);
                    lemma_fundamental_div_mod_converse_div(
                        2 * i1 * ady + dx - 1,
                        2 * dx,
                        k,
                        e1 + dx - 1,
                    );
                }
            }
            error2 += derror2;
            if error2 > dx {
                y += if b1 > b0 { 1 } else { -1 };
                error2 -= dx * 2;
            }
        }
        x += 1;
    }
    assert(pts.take(pts.len() as int) == pts);
    Ok(())
}

} // verus!
