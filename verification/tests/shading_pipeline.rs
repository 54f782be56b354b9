use raster::math::fixed::Fixed;
use raster::math::vector::Vec3f;
use raster::math::vector::Vec4f;
use raster::math::vector::Vector;
use raster::renderer::bitmap::Bitmap;
use raster::renderer::bitmap::OutOfBounds;
use raster::renderer::color::MyColor;
use raster::renderer::obj::Face;
use raster::renderer::obj::FaceInd;
use raster::renderer::obj::ObjData;
use raster::renderer::shading::face_intensity;
use raster::renderer::shading::can_wire;
use raster::renderer::shading::flat_shaded;
use raster::renderer::shading::is_indexed;
use raster::renderer::shading::is_triangulated;
use raster::renderer::shading::project;
use raster::renderer::shading::shade;
use raster::renderer::shading::shade_face;
use raster::renderer::shading::wireframe;
use raster::renderer::shading::RenderError;

const BLACK: MyColor = MyColor { r: 0, g: 0, b: 0, a: 255 };
const BASE: MyColor = MyColor { r: 200, g: 100, b: 50, a: 77 };

fn fx(n: i32, d: i32) -> Fixed {
    Fixed::from_ratio(n, d)
}

fn v4(x: Fixed, y: Fixed, z: Fixed) -> Vec4f {
    Vector([x, y, z, Fixed::one()])
}

fn v3(x: i32, y: i32, z: i32) -> Vec3f {
    Vector([Fixed::from_int(x), Fixed::from_int(y), Fixed::from_int(z)])
}

fn corner(v: u32) -> FaceInd {
    FaceInd { v, vt: None, vn: None }
}

/// One triangle in the plane z = 0 whose normal points toward minus z.
fn single_face() -> ObjData {
    let mut o = ObjData::new();
    o.vertices.push(v4(fx(-1, 2), fx(-1, 2), Fixed::zero()));
    o.vertices.push(v4(fx(1, 2), fx(-1, 2), Fixed::zero()));
    o.vertices.push(v4(Fixed::zero(), fx(1, 2), Fixed::zero()));
    o.faces.push(Face::Tri([corner(1), corner(2), corner(3)]));
    o
}

fn corners(o: &ObjData) -> [Vec4f; 3] {
    [o.vertices[0], o.vertices[1], o.vertices[2]]
}

fn count(img: &Bitmap, c: MyColor) -> usize {
    let mut n = 0;
    for x in 0..img.width() as i32 {
        for y in 0..img.height() as i32 {
            if img.get(x, y) == Some(c) {
                n += 1;
            }
        }
    }
    n
}

#[test]
fn light_along_the_normal_gives_full_intensity() {
    let o = single_face();
    assert_eq!(face_intensity(corners(&o), v3(0, 0, -1)), Fixed::one());
}

#[test]
fn light_against_the_normal_gives_none() {
    let o = single_face();
    assert_eq!(face_intensity(corners(&o), v3(0, 0, 1)), Fixed::from_int(-1));
    let half = (Fixed::from_int(5), Fixed::from_int(5));
    assert!(shade_face(corners(&o), half, v3(0, 0, 0), v3(0, 0, 1), BASE).is_none());
}

#[test]
fn light_across_the_face_gives_none() {
    let o = single_face();
    assert_eq!(face_intensity(corners(&o), v3(1, 0, 0)), Fixed::zero());
    let half = (Fixed::from_int(5), Fixed::from_int(5));
    assert!(shade_face(corners(&o), half, v3(0, 0, 0), v3(1, 0, 0), BASE).is_none());
}

#[test]
fn full_light_fills_in_the_base_color() {
    let o = single_face();
    let half = (Fixed::from_int(5), Fixed::from_int(5));
    let (sc, c) = shade_face(corners(&o), half, v3(0, 0, 0), v3(0, 0, -1), BASE).unwrap();
    assert_eq!(c, BASE);
    assert_eq!(sc[0].0, [fx(5, 2), fx(5, 2), Fixed::zero()]);
    assert_eq!(sc[1].0, [fx(15, 2), fx(5, 2), Fixed::zero()]);
    assert_eq!(sc[2].0, [Fixed::from_int(5), fx(15, 2), Fixed::zero()]);
}

#[test]
fn shade_scales_red_green_blue_and_keeps_alpha() {
    assert_eq!(shade(BASE, Fixed::one()), BASE);
    assert_eq!(shade(BASE, fx(1, 2)), MyColor { r: 100, g: 50, b: 25, a: 77 });
    assert_eq!(shade(BASE, Fixed::zero()), MyColor { r: 0, g: 0, b: 0, a: 77 });
    for b in 0..=255u8 {
        let c = MyColor { r: b, g: 255 - b, b: b / 2, a: b };
        assert_eq!(shade(c, Fixed::one()), c);
    }
}

#[test]
fn half_light_on_a_tilted_face() {
    // normal (0, -sin, -cos) for a face tilted by 60 degrees: cos = 1/2
    let h = [
        v4(Fixed::zero(), Fixed::zero(), Fixed::zero()),
        v4(Fixed::one(), Fixed::zero(), Fixed::zero()),
        v4(Fixed::zero(), fx(1, 2), fx(-866, 1000)),
    ];
    let k = face_intensity(h, v3(0, 0, -1));
    assert!((k.0 - 32768).abs() <= 64, "{}", k.0);
}

#[test]
fn project_maps_the_unit_square_to_the_surface() {
    let half = (Fixed::from_int(400), Fixed::from_int(300));
    let none = v3(0, 0, 0);
    let p = project(v4(Fixed::from_int(-1), Fixed::from_int(-1), fx(1, 4)), half, none);
    assert_eq!(p.0, [Fixed::zero(), Fixed::zero(), fx(1, 4)]);
    let q = project(v4(Fixed::one(), Fixed::one(), fx(-1, 4)), half, none);
    assert_eq!(q.0, [Fixed::from_int(800), Fixed::from_int(600), fx(-1, 4)]);
    let r = project(v4(Fixed::zero(), fx(1, 2), Fixed::zero()), half, v3(10, 20, 3));
    assert_eq!(r.0, [Fixed::from_int(410), Fixed::from_int(470), Fixed::from_int(3)]);
}

#[test]
fn project_divides_by_w() {
    let half = (Fixed::from_int(100), Fixed::from_int(100));
    let h: Vec4f = Vector([Fixed::from_int(1), Fixed::from_int(-1), Fixed::from_int(3), Fixed::from_int(2)]);
    let p = project(h, half, v3(0, 0, 0));
    assert_eq!(p.0, [Fixed::from_int(150), Fixed::from_int(50), fx(3, 2)]);
}

#[test]
fn single_lit_face_is_filled_once_in_the_base_color() {
    let o = single_face();
    let mut img = Bitmap::new(10, 10, BLACK).unwrap();
    let mut depth = vec![Fixed::min_value(); 100];
    let r = flat_shaded(
        &mut img,
        Vector([10, 10]),
        v3(0, 0, 0),
        &o,
        v3(0, 0, -1),
        BASE,
        Some(depth.as_mut_slice()),
    );
    assert!(r.is_ok());
    // corners (2.5, 2.5), (7.5, 2.5), (5, 7.5)
    assert_eq!(img.get(5, 5), Some(BASE));
    assert_eq!(img.get(3, 3), Some(BASE));
    assert_eq!(img.get(7, 3), Some(BASE));
    assert_eq!(img.get(5, 7), Some(BASE));
    assert_eq!(img.get(2, 2), Some(BLACK));
    assert_eq!(img.get(8, 8), Some(BLACK));
    assert_eq!(img.get(3, 7), Some(BLACK));
    let filled = count(&img, BASE);
    assert_eq!(filled + count(&img, BLACK), 100);
    // rows 3 to 7 hold 5, 3, 3, 1 and 1 pixels
    assert_eq!(filled, 13);
    assert_eq!(depth[5 + 5 * 10], Fixed::zero());
    assert_eq!(depth[0], Fixed::min_value());
}

#[test]
fn face_turned_from_the_light_is_not_filled() {
    let o = single_face();
    let mut img = Bitmap::new(10, 10, BLACK).unwrap();
    let mut depth = vec![Fixed::min_value(); 100];
    let r = flat_shaded(
        &mut img,
        Vector([10, 10]),
        v3(0, 0, 0),
        &o,
        v3(0, 0, 1),
        BASE,
        Some(depth.as_mut_slice()),
    );
    assert!(r.is_ok());
    assert_eq!(count(&img, BLACK), 100);
    assert!(depth.iter().all(|d| *d == Fixed::min_value()));
}

#[test]
fn polygon_face_is_refused_before_anything_is_drawn() {
    let mut o = single_face();
    o.faces.push(Face::Poly(vec![corner(1), corner(2), corner(3), corner(1)]));
    assert!(!is_triangulated(&o));
    let mut img = Bitmap::new(10, 10, BLACK).unwrap();
    let r = flat_shaded(&mut img, Vector([10, 10]), v3(0, 0, 0), &o, v3(0, 0, -1), BASE, None);
    assert!(matches!(r, Err(RenderError::UnsupportedFace)));
    assert_eq!(count(&img, BLACK), 100);
    let w = wireframe(&mut img, Vector([10, 10]), Vector([0, 0]), &o, BASE);
    assert!(matches!(w, Err(RenderError::UnsupportedFace)));
    assert_eq!(count(&img, BLACK), 100);
}

#[test]
fn face_with_a_w_of_zero_is_not_filled() {
    let mut o = single_face();
    o.vertices[1] = Vector([fx(1, 2), fx(-1, 2), Fixed::zero(), Fixed::zero()]);
    let mut img = Bitmap::new(10, 10, BLACK).unwrap();
    let r = flat_shaded(&mut img, Vector([10, 10]), v3(0, 0, 0), &o, v3(0, 0, -1), BASE, None);
    assert!(r.is_ok());
    assert_eq!(count(&img, BLACK), 100);
}

#[test]
fn face_without_area_is_not_filled() {
    let mut o = single_face();
    o.vertices[2] = o.vertices[0];
    let mut img = Bitmap::new(10, 10, BLACK).unwrap();
    let r = flat_shaded(&mut img, Vector([10, 10]), v3(0, 0, 0), &o, v3(0, 0, -1), BASE, None);
    assert!(r.is_ok());
    assert_eq!(count(&img, BLACK), 100);
}

#[test]
fn nearer_face_hides_the_farther_in_either_order() {
    let near = fx(1, 2);
    let far = fx(-1, 2);
    for near_first in [true, false] {
        let mut o = ObjData::new();
        let depths = if near_first { [near, far] } else { [far, near] };
        for z in depths {
            o.vertices.push(v4(fx(-1, 2), fx(-1, 2), z));
            o.vertices.push(v4(fx(1, 2), fx(-1, 2), z));
            o.vertices.push(v4(Fixed::zero(), fx(1, 2), z));
        }
        o.faces.push(Face::Tri([corner(1), corner(2), corner(3)]));
        o.faces.push(Face::Tri([corner(4), corner(5), corner(6)]));
        let mut img = Bitmap::new(10, 10, BLACK).unwrap();
        let mut depth = vec![Fixed::min_value(); 100];
        flat_shaded(
            &mut img,
            Vector([10, 10]),
            v3(0, 0, 0),
            &o,
            v3(0, 0, -1),
            BASE,
            Some(depth.as_mut_slice()),
        )
        .unwrap();
        assert_eq!(depth[5 + 5 * 10], near);
        assert_eq!(img.get(5, 5), Some(BASE));
    }
}

#[test]
fn surface_failure_ends_the_rendering() {
    // the face reaches beyond a surface that tells a larger size than the
    // depth buffer's rows, so a write lands outside
    let mut o = ObjData::new();
    o.vertices.push(v4(Fixed::zero(), Fixed::zero(), Fixed::zero()));
    o.vertices.push(v4(Fixed::from_int(3), Fixed::zero(), Fixed::zero()));
    o.vertices.push(v4(Fixed::zero(), Fixed::from_int(3), Fixed::zero()));
    o.faces.push(Face::Tri([corner(1), corner(2), corner(3)]));
    let mut img = Bitmap::new(4, 4, BLACK).unwrap();
    // the fill is clamped to the surface, so nothing is refused
    let r = flat_shaded(&mut img, Vector([4, 4]), v3(0, 0, 0), &o, v3(0, 0, -1), BASE, None);
    assert!(r.is_ok());
    assert_eq!(img.get(3, 3), Some(BASE));
    // a wireframe is not clamped
    let w = wireframe(&mut img, Vector([4, 4]), Vector([0, 0]), &o, BLACK);
    assert!(matches!(w, Err(RenderError::Surface(OutOfBounds))));
}

#[test]
fn wireframe_draws_the_three_edges() {
    let o = single_face();
    let mut img = Bitmap::new(12, 12, BLACK).unwrap();
    wireframe(&mut img, Vector([10, 10]), Vector([1, 1]), &o, BASE).unwrap();
    // corners round to (3, 3), (8, 3), (5, 8), moved by (1, 1)
    for x in 4..=9 {
        assert_eq!(img.get(x, 4), Some(BASE));
    }
    assert_eq!(img.get(6, 9), Some(BASE));
    assert_eq!(img.get(3, 4), Some(BLACK));
    assert_eq!(img.get(6, 6), Some(BLACK));
    assert_eq!(img.get(0, 0), Some(BLACK));
    // 6 on the level edge, 5 more on each slanted edge, less the shared apex
    assert_eq!(count(&img, BASE), 6 + 5 + 5 - 1);
}

#[test]
fn corners_must_name_vertices() {
    let mut o = single_face();
    assert!(is_indexed(&o));
    o.faces.push(Face::Tri([corner(1), corner(2), corner(4)]));
    assert!(!is_indexed(&o));
    o.faces.pop();
    o.faces.push(Face::Tri([corner(0), corner(2), corner(3)]));
    assert!(!is_indexed(&o));
    o.faces.pop();
    o.faces.push(Face::Poly(vec![corner(9)]));
    assert!(is_indexed(&o));
    assert!(is_indexed(&ObjData::new()));
}

#[test]
fn wireframe_ends_must_be_pixels() {
    let o = single_face();
    assert!(can_wire(&o, Vector([10, 10]), Vector([1, 1])));
    assert!(can_wire(&o, Vector([10, 10]), Vector([i32::MAX - 8, i32::MIN])));
    assert!(!can_wire(&o, Vector([10, 10]), Vector([i32::MAX - 7, 0])));
    assert!(!can_wire(&o, Vector([10, 10]), Vector([0, i32::MAX - 7])));
}
