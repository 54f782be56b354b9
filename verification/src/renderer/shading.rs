use crate::math::fixed::floor_div;
use crate::math::fixed::floor_sqrt;
use crate::math::fixed::round_raw;
use crate::math::fixed::saturate;
use crate::math::fixed::Fixed;
use crate::math::vector::cross_raw;
use crate::math::vector::dot_raw;
use crate::math::vector::fits_i32;
use crate::math::vector::len_raw;
use crate::math::vector::sum_sq;
use crate::math::vector::Vec2i;
use crate::math::vector::Vec3f;
use crate::math::vector::Vec4f;
use crate::math::vector::Vector;
use crate::renderer::byte_to_unit;
use crate::renderer::lemma_unit_round_trip;
use crate::renderer::line::all_taken;
use crate::renderer::line::drawn;
use crate::renderer::line::line_points;
use crate::renderer::line::paint;
use crate::renderer::line::pos;
use crate::renderer::obj::Face;
use crate::renderer::obj::FaceInd;
use crate::renderer::obj::ObjData;
use crate::renderer::triangle::depth_fits;
use crate::renderer::triangle::depth_upto;
use crate::renderer::triangle::filled;
use crate::renderer::triangle::on_screen;
use crate::renderer::triangle::pixels_upto;
use crate::renderer::unit_to_byte;
use crate::renderer::steady;
use crate::renderer::Draw;
use crate::renderer::Img;
use crate::renderer::ImgColor;
use vstd::prelude::*;

verus! {

/// Why a mesh was not rendered.
#[derive(Debug)]
pub enum RenderError<E> {
    /// The target refused a write or did not tell its size.
    Surface(E),
    /// The mesh has a face that is not a triangle.
    UnsupportedFace,
}

/// The position with the given raw components.
pub open spec fn vec3(r: (int, int, int)) -> Vec3f {
    Vector([Fixed(r.0 as i32), Fixed(r.1 as i32), Fixed(r.2 as i32)])
}

/// The raw components of a vertex after the perspective divide.
pub open spec fn projected(h: Vec4f) -> (int, int, int) {
    (
        Fixed::div_raw(h.0[0].0 as int, h.0[3].0 as int),
        Fixed::div_raw(h.0[1].0 as int, h.0[3].0 as int),
        Fixed::div_raw(h.0[2].0 as int, h.0[3].0 as int),
    )
}

/// Half of a whole number of pixels, as a raw value.
pub open spec fn half_extent(d: int) -> int {
    saturate(floor_div(d * 65536, 2))
}

/// The raw screen position of a divided vertex `wc`: x and y go from the
/// range from minus one to one to the surface, `(c + 1) * half`, the depth
/// stays as it is, and `offs` is added to all three.
pub open spec fn to_screen(wc: (int, int, int), half: (int, int), offs: (int, int, int)) -> (
    int,
    int,
    int,
) {
    (
        Fixed::add_raw(Fixed::mul_raw(Fixed::add_raw(wc.0, 65536), half.0), offs.0),
        Fixed::add_raw(Fixed::mul_raw(Fixed::add_raw(wc.1, 65536), half.1), offs.1),
        Fixed::add_raw(wc.2, offs.2),
    )
}

/// The raw components of `a - b`.
pub open spec fn edge(a: (int, int, int), b: (int, int, int)) -> (int, int, int) {
    (Fixed::sub_raw(a.0, b.0), Fixed::sub_raw(a.1, b.1), Fixed::sub_raw(a.2, b.2))
}

/// The raw length of a vector of three raw components.
pub open spec fn length3(n: (int, int, int)) -> int {
    saturate(floor_sqrt(n.0 * n.0 + n.1 * n.1 + n.2 * n.2))
}

/// The raw dot product of two vectors of three raw components.
pub open spec fn dot3(a: (int, int, int), b: (int, int, int)) -> int {
    Fixed::add_raw(
        Fixed::add_raw(Fixed::add_raw(0, Fixed::mul_raw(a.0, b.0)), Fixed::mul_raw(a.1, b.1)),
        Fixed::mul_raw(a.2, b.2),
    )
}

/// The raw components of a face's normal, not yet of length one: the cross
/// product of the edge from the first corner to the third with the edge from
/// the first to the second.
pub open spec fn face_cross(wc: ((int, int, int), (int, int, int), (int, int, int))) -> (
    int,
    int,
    int,
) {
    cross_raw(edge(wc.2, wc.0), edge(wc.1, wc.0))
}

/// How much light a face with the given corners gets from the direction
/// `light`, as a raw value: the dot product of its unit normal with `light`.
/// A face is dark when a corner has a w of zero or when its normal is zero.
pub open spec fn intensity(h: [Vec4f; 3], light: Vec3f) -> int {
    if h[0].0[3].0 == 0 || h[1].0[3].0 == 0 || h[2].0[3].0 == 0 {
        0
    } else {
        let n = face_cross((projected(h[0]), projected(h[1]), projected(h[2])));
        if n == (0int, 0int, 0int) {
            0
        } else {
            let len = length3(n);
            dot3((Fixed::div_raw(n.0, len), Fixed::div_raw(n.1, len), Fixed::div_raw(n.2, len)), light.raws())
        }
    }
}

/// One channel lit by the raw intensity `k`: its unit-interval form times
/// `k`, back as a byte.
pub open spec fn lit_channel(b: u8, k: int) -> u8 {
    unit_to_byte(Fixed::mul_raw(k, byte_to_unit(b)))
}

/// The color under light of the raw intensity `k`: red, green and blue are
/// scaled by it, alpha is not.
pub open spec fn shaded<C: ImgColor>(color: C, k: int) -> C {
    let ch = color.channels();
    C::of_channels((lit_channel(ch.0, k), lit_channel(ch.1, k), lit_channel(ch.2, k), ch.3))
}

/// The screen-space triangle of a face.
pub open spec fn screen_triangle(h: [Vec4f; 3], half: (int, int), offs: Vec3f) -> [Vec3f; 3] {
    [
        vec3(to_screen(projected(h[0]), half, offs.raws())),
        vec3(to_screen(projected(h[1]), half, offs.raws())),
        vec3(to_screen(projected(h[2]), half, offs.raws())),
    ]
}

/// What is filled for a face: its screen-space triangle in the shaded
/// color, or nothing for a face that gets no light.
pub open spec fn face_draw<C: ImgColor>(
    h: [Vec4f; 3],
    half: (int, int),
    offs: Vec3f,
    light: Vec3f,
    color: C,
) -> Option<([Vec3f; 3], C)> {
    let k = intensity(h, light);
    if k > 0 {
        Some((screen_triangle(h, half, offs), shaded(color, k)))
    } else {
        None
    }
}

/// Scales the red, green and blue of `color` by the intensity `k`.
pub fn shade<C: ImgColor>(color: C, k: Fixed) -> (c: C)
    ensures
        c == shaded(color, k.0 as int),
{
    let (r, g, b, a) = color.to_unit_rgba();
    proof {
        lemma_unit_round_trip(color.channels().3);
    }
    C::from_unit_rgba(k.mul(r), k.mul(g), k.mul(b), a)
}

/// A face that gets no light is not drawn.
pub proof fn lemma_dark_face_not_drawn<C: ImgColor>(
    h: [Vec4f; 3],
    half: (int, int),
    offs: Vec3f,
    light: Vec3f,
    color: C,
)
    requires
        intensity(h, light) <= 0,
    ensures
        face_draw(h, half, offs, light, color) is None,
{
}

/// Light of intensity one leaves a color as it is.
pub proof fn lemma_full_light_keeps_color<C: ImgColor>(color: C)
    ensures
        shaded(color, 65536) == color,
{
    let ch = color.channels();
    lemma_lit_channel_full(ch.0);
    lemma_lit_channel_full(ch.1);
    lemma_lit_channel_full(ch.2);
    C::lemma_channels(color, ch);
}

/// A face whose unit normal is the light direction is drawn in the base
/// color.
pub proof fn lemma_facing_face_keeps_color<C: ImgColor>(
    h: [Vec4f; 3],
    half: (int, int),
    offs: Vec3f,
    light: Vec3f,
    color: C,
)
    requires
        intensity(h, light) == 65536,
    ensures
        face_draw(h, half, offs, light, color) == Some((screen_triangle(h, half, offs), color)),
{
    lemma_full_light_keeps_color(color);
}

/// A channel under light of intensity one is the channel.
pub proof fn lemma_lit_channel_full(b: u8)
    ensures
        lit_channel(b, 65536) == b,
{
    let u: int = byte_to_unit(b);
    assert(0 <= u <= 65536) by {
        vstd::arithmetic::div_mod::lemma_fundamental_div_mod(b * 65536, 255);
    }
    assert(65536 * u == u * 65536) by (nonlinear_arith);
    vstd::arithmetic::div_mod::lemma_div_multiples_vanish(u, 65536);
    assert(Fixed::mul_raw(65536, u) == u);
    lemma_unit_round_trip(b);
}

/// The dot product of three components is the sum of the three products, in
/// order.
pub proof fn lemma_dot3(a: Vec3f, b: Vec3f)
    ensures
        dot_raw(a.0@, b.0@, 3) == dot3(a.raws(), b.raws()),
{
    reveal_with_fuel(dot_raw, 4);
}

/// The length of a vector of three components.
pub proof fn lemma_length3(a: Vec3f)
    ensures
        len_raw(a.0@) == length3(a.raws()),
{
    reveal_with_fuel(sum_sq, 4);
}

/// The light a face gets.
pub fn face_intensity(h: [Vec4f; 3], light_dir: Vec3f) -> (k: Fixed)
    ensures
        k.0 == intensity(h, light_dir),
{
    if h[0].0[3].0 == 0 || h[1].0[3].0 == 0 || h[2].0[3].0 == 0 {
        return Fixed::zero();
    }
    let wc0: Vec3f = h[0].div_w();
    let wc1: Vec3f = h[1].div_w();
    let wc2: Vec3f = h[2].div_w();
    let n: Vec3f = wc2.sub(wc0).cross(wc1.sub(wc0));
    assert(n.raws() == face_cross((projected(h[0]), projected(h[1]), projected(h[2]))));
    if n.0[0].0 == 0 && n.0[1].0 == 0 && n.0[2].0 == 0 {
        return Fixed::zero();
    }
    assert(n.0[0].0 != 0 || n.0[1].0 != 0 || n.0[2].0 != 0);
    let normal: Vec3f = n.normalized();
    proof {
        lemma_length3(n);
        lemma_dot3(normal, light_dir);
    }
    normal.dot(light_dir)
}

/// The screen-space position of a vertex with a w other than zero.
pub fn project(h: Vec4f, half: (Fixed, Fixed), offs: Vec3f) -> (r: Vec3f)
    requires
        h.0[3].0 != 0,
    ensures
        r == vec3(to_screen(projected(h), (half.0.0 as int, half.1.0 as int), offs.raws())),
{
    let wc: Vec3f = h.div_w();
    let at: Vec3f = Vector(
        [wc.0[0].add(Fixed::one()).mul(half.0), wc.0[1].add(Fixed::one()).mul(half.1), wc.0[2]],
    );
    let r: Vec3f = at.add(offs);
    assert(r.0 =~= vec3(
        to_screen(projected(h), (half.0.0 as int, half.1.0 as int), offs.raws()),
    ).0);
    r
}

/// What to fill for the face with the corners `h`: the screen-space
/// triangle and the shaded color, or nothing for a face that gets no light.
pub fn shade_face<C: ImgColor>(
    h: [Vec4f; 3],
    half: (Fixed, Fixed),
    offs: Vec3f,
    light_dir: Vec3f,
    color: C,
) -> (r: Option<([Vec3f; 3], C)>)
    ensures
        r == face_draw(h, (half.0.0 as int, half.1.0 as int), offs, light_dir, color),
{
    let k: Fixed = face_intensity(h, light_dir);
    if k.0 > 0 {
        let sc: [Vec3f; 3] = [
            project(h[0], half, offs),
            project(h[1], half, offs),
            project(h[2], half, offs),
        ];
        assert(sc =~= screen_triangle(h, (half.0.0 as int, half.1.0 as int), offs));
        Some((sc, shade(color, k)))
    } else {
        None
    }
}

/// The homogeneous corners of the `k`-th face of a mesh, where that face is
/// a triangle.
pub open spec fn face_corners(o: &ObjData, k: int) -> [Vec4f; 3] {
    [
        o.vertices[o.corner(k, 0).v - 1],
        o.vertices[o.corner(k, 1).v - 1],
        o.vertices[o.corner(k, 2).v - 1],
    ]
}

/// The pixels and depths once the first `k` faces of the mesh were shaded
/// and filled in order, starting from `before` and `depth`.
pub open spec fn render_upto<C: ImgColor>(
    o: &ObjData,
    k: int,
    half: (int, int),
    offs: Vec3f,
    light: Vec3f,
    color: C,
    ext: (int, int),
    before: Map<(int, int), C>,
    depth: Option<Seq<Fixed>>,
) -> (Map<(int, int), C>, Option<Seq<Fixed>>)
    decreases k,
{
    if k <= 0 {
        (before, depth)
    } else {
        let prev = render_upto(o, k - 1, half, offs, light, color, ext, before, depth);
        match face_draw(face_corners(o, k - 1), half, offs, light, color) {
            Some((t, c)) => (
                pixels_upto(t, ext, prev.1, prev.0, c, None),
                match prev.1 {
                    Some(z) => Some(depth_upto(t, ext, z, None, false)),
                    None => None,
                },
            ),
            None => prev,
        }
    }
}

/// A mesh none of whose faces gets light leaves the pixels and the depths
/// as they were: nothing is filled.
pub proof fn lemma_dark_mesh_draws_nothing<C: ImgColor>(
    o: &ObjData,
    k: int,
    half: (int, int),
    offs: Vec3f,
    light: Vec3f,
    color: C,
    ext: (int, int),
    before: Map<(int, int), C>,
    depth: Option<Seq<Fixed>>,
)
    requires
        forall|j: int| 0 <= j < k ==> intensity(#[trigger] face_corners(o, j), light) <= 0,
    ensures
        render_upto(o, k, half, offs, light, color, ext, before, depth) == (before, depth),
    decreases k,
{
    if k > 0 {
        lemma_dark_mesh_draws_nothing(o, k - 1, half, offs, light, color, ext, before, depth);
        assert(intensity(face_corners(o, k - 1), light) <= 0);
    }
}

/// A mesh of one face whose unit normal is the light direction is rendered
/// by filling that face's screen triangle once, in the base color.
pub proof fn lemma_facing_face_rendered_once<C: ImgColor>(
    o: &ObjData,
    half: (int, int),
    offs: Vec3f,
    light: Vec3f,
    color: C,
    ext: (int, int),
    before: Map<(int, int), C>,
    depth: Option<Seq<Fixed>>,
)
    requires
        intensity(face_corners(o, 0), light) == 65536,
    ensures
        render_upto(o, 1, half, offs, light, color, ext, before, depth) == (
            pixels_upto(
                screen_triangle(face_corners(o, 0), half, offs),
                ext,
                depth,
                before,
                color,
                None,
            ),
            match depth {
                Some(z) => Some(
                    depth_upto(screen_triangle(face_corners(o, 0), half, offs), ext, z, None, false),
                ),
                None => None,
            },
        ),
{
    lemma_facing_face_keeps_color(face_corners(o, 0), half, offs, light, color);
    reveal_with_fuel(render_upto, 2);
}

/// What shading a triangulated mesh leaves behind. When it went well, every
/// face was filled in order and nothing was refused. When it did not, the
/// faces before some lit face were filled and the fill of that face failed:
/// with the error returned, and with nothing of later faces drawn. `told`
/// says whether the target is sure to tell its size.
pub open spec fn shaded_mesh<C: ImgColor, E>(
    o: &ObjData,
    half: (int, int),
    offs: Vec3f,
    light: Vec3f,
    color: C,
    ext: (int, int),
    before: Map<(int, int), C>,
    after: Map<(int, int), C>,
    depth: Option<Seq<Fixed>>,
    depth_after: Option<Seq<Fixed>>,
    refused: Seq<E>,
    refused_after: Seq<E>,
    told: bool,
    r: Result<(), E>,
) -> bool {
    match r {
        Ok(()) => (after, depth_after) == render_upto(
            o,
            o.faces.len() as int,
            half,
            offs,
            light,
            color,
            ext,
            before,
            depth,
        ) && refused_after == refused,
        Err(e) => exists|k: int|
            {
                let prev = #[trigger] render_upto(
                    o,
                    k,
                    half,
                    offs,
                    light,
                    color,
                    ext,
                    before,
                    depth,
                );
                &&& 0 <= k < o.faces.len()
                &&& face_draw(face_corners(o, k), half, offs, light, color) matches Some(d)
                    && filled(
                    d.0,
                    d.1,
                    ext,
                    prev.0,
                    after,
                    prev.1,
                    depth_after,
                    refused,
                    refused_after,
                    told,
                    Err::<(), E>(e),
                )
            },
    }
}

/// Whether the target is sure to take a write at every pixel of its extent.
pub open spec fn takes_all<I: Img>(target: I) -> bool {
    forall|p: (int, int)| on_screen(target.extent(), p) ==> #[trigger] target.takes(p)
}

/// The result of the drawing below a rendering, where the rendering got that
/// far: the error of the target without its wrapping.
pub open spec fn below<E>(r: Result<(), RenderError<E>>) -> Result<(), E> {
    match r {
        Err(RenderError::Surface(e)) => Err(e),
        _ => Ok(()),
    }
}

/// Whether every face of the mesh is a triangle.
pub fn is_triangulated(o: &ObjData) -> (r: bool)
    ensures
        r == o.triangulated(),
{
    let mut k: usize = 0;
    while k < o.faces.len()
        invariant
            k <= o.faces.len(),
            forall|j: int| 0 <= j < k ==> #[trigger] o.faces[j] is Tri,
        decreases o.faces.len() - k,
    {
        match &o.faces[k] {
            Face::Tri(_) => {},
            Face::Poly(_) => {
                return false;
            },
        }
        k += 1;
    }
    true
}

/// Whether every corner of every triangle names a vertex of the mesh.
pub fn is_indexed(o: &ObjData) -> (r: bool)
    ensures
        r == o.indexed(),
{
    let n: usize = o.vertices.len();
    let mut k: usize = 0;
    while k < o.faces.len()
        invariant
            k <= o.faces.len(),
            n == o.vertices.len(),
            forall|j: int, i: int|
                0 <= j < k && 0 <= i < 3 && o.faces[j] is Tri ==> 1 <= (#[trigger] o.corner(j, i)).v
                    <= n,
        decreases o.faces.len() - k,
    {
        match &o.faces[k] {
            Face::Tri(inds) => {
                let mut i: usize = 0;
                while i < 3
                    invariant
                        i <= 3,
                        k < o.faces.len(),
                        n == o.vertices.len(),
                        o.faces[k as int] == Face::Tri(*inds),
                        forall|a: int| 0 <= a < i ==> 1 <= (#[trigger] inds[a]).v <= n,
                    decreases 3 - i,
                {
                    if inds[i].v < 1 || inds[i].v as usize > n {
                        assert(o.corner(k as int, i as int) == inds[i as int]);
                        return false;
                    }
                    i += 1;
                }
                assert forall|a: int| 0 <= a < 3 implies 1 <= (#[trigger] o.corner(k as int, a)).v
                    <= n by {
                    assert(o.corner(k as int, a) == inds[a]);
                }
            },
            Face::Poly(_) => {},
        }
        k += 1;
    }
    true
}

/// Whether every end of every segment of the wireframe of a triangulated
/// mesh can be held.
pub fn can_wire(o: &ObjData, size: Vec2i, offs: Vec2i) -> (r: bool)
    requires
        o.indexed(),
        o.triangulated(),
    ensures
        r == wire_fits(o, (half_extent(size.0[0] as int), half_extent(size.0[1] as int)), offs),
{
    let half: (Fixed, Fixed) = (Fixed::from_ratio(size.0[0], 2), Fixed::from_ratio(size.0[1], 2));
    let ghost hf: (int, int) = (half.0.0 as int, half.1.0 as int);
    let mut k: usize = 0;
    while k < o.faces.len()
        invariant
            k <= o.faces.len(),
            o.indexed(),
            o.triangulated(),
            hf == (half.0.0 as int, half.1.0 as int),
            hf == (half_extent(size.0[0] as int), half_extent(size.0[1] as int)),
            forall|j: int, i: int|
                0 <= j < k && 0 <= i < 3 ==> pixel_fits(
                    wire_end(#[trigger] face_corners(o, j)[i], hf, offs),
                ),
        decreases o.faces.len() - k,
    {
        match &o.faces[k] {
            Face::Tri(inds) => {
                let h: [Vec4f; 3] = corners_of(o, k, inds);
                let mut i: usize = 0;
                while i < 3
                    invariant
                        i <= 3,
                        k < o.faces.len(),
                        h == face_corners(o, k as int),
                        hf == (half.0.0 as int, half.1.0 as int),
                        hf == (half_extent(size.0[0] as int), half_extent(size.0[1] as int)),
                        forall|a: int| 0 <= a < i ==> pixel_fits(wire_end(#[trigger] h[a], hf, offs)),
                    decreases 3 - i,
                {
                    let x: i64 = offs.0[0] as i64 + h[i].0[0].add(Fixed::one()).mul(
                        half.0,
                    ).round() as i64;
                    let y: i64 = offs.0[1] as i64 + h[i].0[1].add(Fixed::one()).mul(
                        half.1,
                    ).round() as i64;
                    if x < -2147483648 || x > 2147483647 || y < -2147483648 || y > 2147483647 {
                        assert(!pixel_fits(wire_end(face_corners(o, k as int)[i as int], hf, offs)));
                        return false;
                    }
                    i += 1;
                }
            },
            Face::Poly(_) => {
                assert(o.faces[k as int] is Tri);
            },
        }
        k += 1;
    }
    true
}

/// The homogeneous corners of a triangle of the mesh.
fn corners_of(o: &ObjData, k: usize, inds: &[FaceInd; 3]) -> (h: [Vec4f; 3])
    requires
        o.indexed(),
        k < o.faces.len(),
        o.faces[k as int] == Face::Tri(*inds),
    ensures
        h == face_corners(o, k as int),
{
    assert(o.corner(k as int, 0) == inds[0]);
    assert(o.corner(k as int, 1) == inds[1]);
    assert(o.corner(k as int, 2) == inds[2]);
    let h: [Vec4f; 3] = [
        o.vertices[(inds[0].v - 1) as usize],
        o.vertices[(inds[1].v - 1) as usize],
        o.vertices[(inds[2].v - 1) as usize],
    ];
    assert(h =~= face_corners(o, k as int));
    h
}

/// Shades and fills the faces of a triangulated mesh, with the depths in `z`
/// when `tested`.
fn shade_faces<I: Draw>(
    img: &mut I,
    half: (Fixed, Fixed),
    offs: Vec3f,
    o: &ObjData,
    light_dir: Vec3f,
    color: I::Color,
    z: &mut [Fixed],
    tested: bool,
) -> (r: Result<(), I::Err>)
    requires
        o.indexed(),
        o.triangulated(),
        tested ==> depth_fits(old(img).extent(), old(z)@.len() as int),
    ensures
        steady(*old(img), *final(img)),
        !tested ==> final(z)@ == old(z)@,
        shaded_mesh(
            o,
            (half.0.0 as int, half.1.0 as int),
            offs,
            light_dir,
            color,
            old(img).extent(),
            old(img).pixels(),
            final(img).pixels(),
            if tested { Some(old(z)@) } else { None },
            if tested { Some(final(z)@) } else { None },
            old(img).refusals(),
            final(img).refusals(),
            old(img).tells_size(),
            r,
        ),
        r matches Err(e) ==> (final(img).refusals() == old(img).refusals() ==> exists|at: I|
            steady(*old(img), at) && #[trigger] call_ensures(
                I::size,
                (&at,),
                Err::<Vec2i, I::Err>(e),
            )),
        old(img).tells_size() && takes_all(*old(img)) ==> r is Ok,
{
    let ghost ext = img.extent();
    let ghost before = img.pixels();
    let ghost depth: Option<Seq<Fixed>> = if tested { Some(z@) } else { None };
    let ghost hf: (int, int) = (half.0.0 as int, half.1.0 as int);
    let mut k: usize = 0;
    while k < o.faces.len()
        invariant
            k <= o.faces.len(),
            o.indexed(),
            o.triangulated(),
            hf == (half.0.0 as int, half.1.0 as int),
            ext == old(img).extent(),
            img.extent() == ext,
            steady(*old(img), *img),
            img.refusals() == old(img).refusals(),
            before == old(img).pixels(),
            depth == (if tested { Some(old(z)@) } else { None::<Seq<Fixed>> }),
            tested ==> depth_fits(ext, z@.len() as int),
            z@.len() == old(z)@.len(),
            !tested ==> z@ == old(z)@,
            (img.pixels(), if tested { Some(z@) } else { None::<Seq<Fixed>> }) == render_upto(
                o,
                k as int,
                hf,
                offs,
                light_dir,
                color,
                ext,
                before,
                depth,
            ),
        decreases o.faces.len() - k,
    {
        let ghost prev = render_upto(o, k as int, hf, offs, light_dir, color, ext, before, depth);
        match &o.faces[k] {
            Face::Tri(inds) => {
                let h: [Vec4f; 3] = corners_of(o, k, inds);
                match shade_face(h, half, offs, light_dir, color) {
                    Some((sc, c)) => {
                        let ghost at = *img;
                        let r = if tested {
                            img.tri(sc, c, Some(&mut *z))
                        } else {
                            img.tri(sc, c, None)
                        };
                        match r {
                            Ok(()) => {},
                            Err(e) => {
                                assert(filled(
                                    sc,
                                    c,
                                    ext,
                                    prev.0,
                                    img.pixels(),
                                    prev.1,
                                    if tested { Some(z@) } else { None::<Seq<Fixed>> },
                                    old(img).refusals(),
                                    img.refusals(),
                                    old(img).tells_size(),
                                    Err::<(), I::Err>(e),
                                ));
                                assert(img.refusals() == old(img).refusals() ==> steady(
                                    *old(img),
                                    at,
                                ) && call_ensures(I::size, (&at,), Err::<Vec2i, I::Err>(e)));
                                assert(!(old(img).tells_size() && takes_all(*old(img))));
                                return Err(e);
                            },
                        }
                    },
                    None => {},
                }
            },
            Face::Poly(_) => {
                assert(o.faces[k as int] is Tri);
            },
        }
        k += 1;
    }
    Ok(())
}

/// Renders a mesh under one light. Each triangle is projected to the
/// surface, lit by the dot product of its unit normal with `light_dir`, and,
/// where that is above zero, filled in `color` scaled by it. A mesh with a
/// face that is not a triangle is refused before anything is drawn. The
/// first fill that fails ends the rendering, and its error is the one
/// returned: the error of the one refused write, or, with nothing refused,
/// what the target answered when asked for its size. On a target that is sure to tell its size and to take every
/// pixel of its extent, a mesh of triangles is rendered to its end.
pub fn flat_shaded<I: Draw>(
    img: &mut I,
    size: Vec2i,
    offs: Vec3f,
    o: &ObjData,
    light_dir: Vec3f,
    color: I::Color,
    zbuffer: Option<&mut [Fixed]>,
) -> (r: Result<(), RenderError<I::Err>>)
    requires
        o.indexed(),
        zbuffer matches Some(z) ==> depth_fits(old(img).extent(), z@.len() as int),
    ensures
        steady(*old(img), *final(img)),
        r matches Err(RenderError::UnsupportedFace) <==> !o.triangulated(),
        r matches Err(RenderError::UnsupportedFace) ==> final(img).pixels() == old(img).pixels()
            && final(img).refusals() == old(img).refusals(),
        r matches Err(RenderError::UnsupportedFace) ==> (zbuffer matches Some(z) ==> final(z)@
            == z@),
        o.triangulated() && old(img).tells_size() && takes_all(*old(img)) ==> r is Ok,
        !(r matches Err(RenderError::UnsupportedFace)) ==> shaded_mesh(
            o,
            (half_extent(size.0[0] as int), half_extent(size.0[1] as int)),
            offs,
            light_dir,
            color,
            old(img).extent(),
            old(img).pixels(),
            final(img).pixels(),
            match zbuffer {
                Some(z) => Some(z@),
                None => None,
            },
            match zbuffer {
                Some(z) => Some(final(z)@),
                None => None,
            },
            old(img).refusals(),
            final(img).refusals(),
            old(img).tells_size(),
            below(r),
        ),
        r matches Err(RenderError::Surface(e)) ==> (final(img).refusals() == old(img).refusals()
            ==> exists|at: I|
            steady(*old(img), at) && #[trigger] call_ensures(
                I::size,
                (&at,),
                Err::<Vec2i, I::Err>(e),
            )),
{
    if !is_triangulated(o) {
        return Err(RenderError::UnsupportedFace);
    }
    let half: (Fixed, Fixed) = (Fixed::from_ratio(size.0[0], 2), Fixed::from_ratio(size.0[1], 2));
    let r = match zbuffer {
        Some(z) => shade_faces(img, half, offs, o, light_dir, color, z, true),
        None => {
            let mut none: [Fixed; 0] = [];
            shade_faces(img, half, offs, o, light_dir, color, &mut none, false)
        },
    };
    match r {
        Ok(()) => Ok(()),
        Err(e) => Err(RenderError::Surface(e)),
    }
}

/// Where a vertex goes in a wireframe: its x and y as they are, not divided
/// by w, go from the range from minus one to one to the surface, are rounded
/// to whole pixels and moved by `offs`.
pub open spec fn wire_end(v: Vec4f, half: (int, int), offs: Vec2i) -> (int, int) {
    (
        offs.0[0] + round_raw(Fixed::mul_raw(Fixed::add_raw(v.0[0].0 as int, 65536), half.0)),
        offs.0[1] + round_raw(Fixed::mul_raw(Fixed::add_raw(v.0[1].0 as int, 65536), half.1)),
    )
}

/// The two ends of the `j`-th segment of a wireframe: the segments of a face
/// run from each corner to the next, and the faces follow one another.
pub open spec fn wire_segment(o: &ObjData, j: int, half: (int, int), offs: Vec2i) -> (
    (int, int),
    (int, int),
) {
    let h = face_corners(o, j / 3);
    (wire_end(h[j % 3], half, offs), wire_end(h[(j % 3 + 1) % 3], half, offs))
}

/// The pixels once the first `j` segments of a wireframe were drawn in
/// order.
pub open spec fn wire_upto<C>(
    o: &ObjData,
    j: int,
    half: (int, int),
    offs: Vec2i,
    color: C,
    before: Map<(int, int), C>,
) -> Map<(int, int), C>
    decreases j,
{
    if j <= 0 {
        before
    } else {
        let seg = wire_segment(o, j - 1, half, offs);
        paint(wire_upto(o, j - 1, half, offs, color, before), line_points(seg.0, seg.1), color)
    }
}

/// Whether both coordinates of a pixel are values of an `i32`.
pub open spec fn pixel_fits(p: (int, int)) -> bool {
    i32::MIN <= p.0 <= i32::MAX && i32::MIN <= p.1 <= i32::MAX
}

/// Whether every end of every segment of the wireframe can be held.
pub open spec fn wire_fits(o: &ObjData, half: (int, int), offs: Vec2i) -> bool {
    forall|k: int, i: int|
        0 <= k < o.faces.len() && 0 <= i < 3 ==> pixel_fits(
            wire_end(#[trigger] face_corners(o, k)[i], half, offs),
        )
}

/// What drawing the wireframe of a triangulated mesh leaves behind. When it
/// went well, every segment was drawn in order and nothing was refused. When
/// it did not, the segments before some segment were drawn, and that one was
/// cut short at the one pixel that the target refused, with the error
/// returned.
pub open spec fn wired<C, E>(
    o: &ObjData,
    half: (int, int),
    offs: Vec2i,
    color: C,
    before: Map<(int, int), C>,
    after: Map<(int, int), C>,
    refused: Seq<E>,
    refused_after: Seq<E>,
    r: Result<(), E>,
) -> bool {
    match r {
        Ok(()) => after == wire_upto(o, 3 * o.faces.len(), half, offs, color, before)
            && refused_after == refused,
        Err(e) => exists|j: int|
            {
                let seg = wire_segment(o, j, half, offs);
                &&& 0 <= j < 3 * o.faces.len()
                &&& drawn(
                    #[trigger] wire_upto(o, j, half, offs, color, before),
                    after,
                    line_points(seg.0, seg.1),
                    color,
                    false,
                )
                &&& refused_after == refused.push(e)
            },
    }
}

/// Whether the target is sure to take a write at every pixel of every
/// segment of the wireframe.
pub open spec fn wire_taken<I: Img>(target: I, o: &ObjData, half: (int, int), offs: Vec2i) -> bool {
    forall|j: int|
        0 <= j < 3 * o.faces.len() ==> {
            let seg = #[trigger] wire_segment(o, j, half, offs);
            all_taken(target, line_points(seg.0, seg.1))
        }
}

/// The end of a wireframe segment at a vertex.
fn wire_point(v: Vec4f, half: (Fixed, Fixed), offs: Vec2i) -> (p: Vec2i)
    requires
        pixel_fits(wire_end(v, (half.0.0 as int, half.1.0 as int), offs)),
    ensures
        pos(p) == wire_end(v, (half.0.0 as int, half.1.0 as int), offs),
{
    let s: Vec2i = Vector(
        [
            v.0[0].add(Fixed::one()).mul(half.0).round(),
            v.0[1].add(Fixed::one()).mul(half.1).round(),
        ],
    );
    assert forall|i: int| 0 <= i < 2 implies fits_i32(offs.0[i] + s.0[i]) by {}
    offs.add(s)
}

/// Draws the outline of every triangle of a mesh: a segment from each corner
/// to the next. A mesh with a face that is not a triangle is refused before
/// anything is drawn.
pub fn wireframe<I: Draw>(img: &mut I, size: Vec2i, offs: Vec2i, o: &ObjData, color: I::Color) -> (r:
    Result<(), RenderError<I::Err>>)
    requires
        o.indexed(),
        o.triangulated() ==> wire_fits(
            o,
            (half_extent(size.0[0] as int), half_extent(size.0[1] as int)),
            offs,
        ),
    ensures
        steady(*old(img), *final(img)),
        r matches Err(RenderError::UnsupportedFace) <==> !o.triangulated(),
        r matches Err(RenderError::UnsupportedFace) ==> final(img).pixels() == old(img).pixels()
            && final(img).refusals() == old(img).refusals(),
        o.triangulated() && wire_taken(
            *old(img),
            o,
            (half_extent(size.0[0] as int), half_extent(size.0[1] as int)),
            offs,
        ) ==> r is Ok,
        !(r matches Err(RenderError::UnsupportedFace)) ==> wired(
            o,
            (half_extent(size.0[0] as int), half_extent(size.0[1] as int)),
            offs,
            color,
            old(img).pixels(),
            final(img).pixels(),
            old(img).refusals(),
            final(img).refusals(),
            below(r),
        ),
{
    if !is_triangulated(o) {
        return Err(RenderError::UnsupportedFace);
    }
    let half: (Fixed, Fixed) = (Fixed::from_ratio(size.0[0], 2), Fixed::from_ratio(size.0[1], 2));
    let ghost hf: (int, int) = (half.0.0 as int, half.1.0 as int);
    let ghost before = img.pixels();
    let mut k: usize = 0;
    while k < o.faces.len()
        invariant
            k <= o.faces.len(),
            o.indexed(),
            o.triangulated(),
            wire_fits(o, hf, offs),
            hf == (half.0.0 as int, half.1.0 as int),
            hf == (half_extent(size.0[0] as int), half_extent(size.0[1] as int)),
            steady(*old(img), *img),
            img.refusals() == old(img).refusals(),
            before == old(img).pixels(),
            img.pixels() == wire_upto(o, 3 * k, hf, offs, color, before),
        decreases o.faces.len() - k,
    {
        match &o.faces[k] {
            Face::Tri(inds) => {
                let h: [Vec4f; 3] = corners_of(o, k, inds);
                let mut i: usize = 0;
                while i < 3
                    invariant
                        i <= 3,
                        k < o.faces.len(),
                        h == face_corners(o, k as int),
                        wire_fits(o, hf, offs),
                        o.triangulated(),
                        hf == (half.0.0 as int, half.1.0 as int),
                        hf == (half_extent(size.0[0] as int), half_extent(size.0[1] as int)),
                        steady(*old(img), *img),
                        img.refusals() == old(img).refusals(),
                        before == old(img).pixels(),
                        img.pixels() == wire_upto(o, 3 * k + i, hf, offs, color, before),
                    decreases 3 - i,
                {
                    let ghost j: int = 3 * k + i;
                    assert(j / 3 == k && j % 3 == i);
                    assert(pixel_fits(wire_end(face_corners(o, k as int)[i as int], hf, offs)));
                    assert(pixel_fits(
                        wire_end(face_corners(o, k as int)[(i as int + 1) % 3], hf, offs),
                    ));
                    let s: Vec2i = wire_point(h[i], half, offs);
                    let e: Vec2i = wire_point(h[(i + 1) % 3], half, offs);
                    assert((pos(s), pos(e)) == wire_segment(o, j, hf, offs));
                    let ghost so_far = wire_upto(o, j, hf, offs, color, before);
                    match img.line(s, e, color) {
                        Ok(()) => {},
                        Err(err) => {
                            assert(drawn(
                                so_far,
                                img.pixels(),
                                line_points(pos(s), pos(e)),
                                color,
                                false,
                            ));
                            assert(!all_taken(*old(img), line_points(pos(s), pos(e))));
                            assert(!wire_taken(*old(img), o, hf, offs));
                            return Err(RenderError::Surface(err));
                        },
                    }
                    i += 1;
                }
            },
            Face::Poly(_) => {
                assert(o.faces[k as int] is Tri);
            },
        }
        k += 1;
    }
    Ok(())
}

} // verus!
