use raster::math::fixed::Fixed;
use raster::math::vector::Vec3f;
use raster::math::vector::Vector;
use raster::renderer::color::MyColor;
use raster::renderer::obj::Face;
use raster::renderer::obj::FaceInd;
use raster::renderer::obj::ObjData;
use raster::renderer::shading::flat_shaded;
use raster::renderer::shading::RenderError;
use raster::renderer::surface::Surface;
use raster::renderer::surface::SurfaceError;
use raster::renderer::surface::Target;
use raster::renderer::triangle::fill;
use raster::renderer::triangle::tri;
use raster::renderer::Draw;
use raster::renderer::Img;
use std::cell::Cell;

const RED: MyColor = MyColor { r: 255, g: 0, b: 0, a: 255 };

/// A target that notes what it takes, and fails from a given pixel on.
struct Recorder {
    size: Cell<(i32, i32)>,
    taken: Vec<(i32, i32, (u8, u8, u8, u8))>,
    room: usize,
    tells_size: bool,
}

fn recorder(w: i32, h: i32, room: usize) -> Recorder {
    Recorder { size: Cell::new((w, h)), taken: vec![], room, tells_size: true }
}

impl Target for Recorder {
    type Err = String;

    fn put(&mut self, x: i32, y: i32, rgba: (u8, u8, u8, u8)) -> Result<(), String> {
        if self.taken.len() >= self.room {
            return Err(format!("full at {x},{y}"));
        }
        self.taken.push((x, y, rgba));
        Ok(())
    }

    fn size(&self) -> Result<(i32, i32), String> {
        if self.tells_size {
            Ok(self.size.get())
        } else {
            Err("no size".to_string())
        }
    }
}

fn at(x: i32, y: i32, depth: Fixed) -> Vec3f {
    Vector([Fixed::from_int(x), Fixed::from_int(y), depth])
}

fn places(r: &Recorder) -> Vec<(i32, i32)> {
    r.taken.iter().map(|t| (t.0, t.1)).collect()
}

#[test]
fn surface_hands_pixels_to_its_target() {
    let mut s = Surface::new(recorder(4, 3, 10)).unwrap();
    let size = s.size().unwrap();
    assert_eq!((size.x(), size.y()), (4, 3));
    s.set_px(Vector([1, 2]), MyColor { r: 1, g: 2, b: 3, a: 4 }).unwrap();
    s.set_px(Vector([-7, 99]), RED).unwrap();
    assert_eq!(s.target().taken, vec![(1, 2, (1, 2, 3, 4)), (-7, 99, (255, 0, 0, 255))]);
    let back = s.into_target();
    assert_eq!(back.taken.len(), 2);
}

#[test]
fn surface_passes_the_target_error_on() {
    let mut s = Surface::new(recorder(4, 3, 0)).unwrap();
    assert_eq!(
        s.set_px(Vector([1, 2]), RED),
        Err(SurfaceError::Target("full at 1,2".to_string()))
    );
    let mut silent = recorder(4, 3, 0);
    silent.tells_size = false;
    assert!(Surface::new(silent).is_err());
}

#[test]
fn surface_notices_a_changed_size() {
    let s = Surface::new(recorder(4, 3, 0)).unwrap();
    s.target().size.set((5, 3));
    assert_eq!(s.size(), Err(SurfaceError::Resized));
    s.target().size.set((4, 3));
    assert!(s.size().is_ok());
}

#[test]
fn triangle_is_filled_by_columns_from_the_top() {
    let mut s = Surface::new(recorder(4, 4, 100)).unwrap();
    let half = Fixed::from_ratio(1, 2);
    tri(&mut s, [at(0, 0, half), at(2, 0, half), at(0, 2, half)], RED, None).unwrap();
    assert_eq!(places(s.target()), vec![(0, 0), (0, 1), (0, 2), (1, 0), (1, 1), (2, 0)]);
    assert!(s.target().taken.iter().all(|t| t.2 == (255, 0, 0, 255)));
}

#[test]
fn refused_pixel_ends_the_fill_after_its_depth_was_written() {
    let mut s = Surface::new(recorder(4, 4, 3)).unwrap();
    let half = Fixed::from_ratio(1, 2);
    let mut depth = vec![Fixed::min_value(); 16];
    let r = tri(&mut s, [at(0, 0, half), at(2, 0, half), at(0, 2, half)], RED, Some(depth.as_mut_slice()));
    assert_eq!(r, Err(SurfaceError::Target("full at 1,0".to_string())));
    assert_eq!(places(s.target()), vec![(0, 0), (0, 1), (0, 2)]);
    let written: Vec<usize> = (0..16).filter(|i| depth[*i] == half).collect();
    // the cells of (0, 0), (1, 0), (0, 1) and (0, 2)
    assert_eq!(written, vec![0, 1, 4, 8]);
}

#[test]
fn fill_fails_where_the_size_is_not_told() {
    let mut s = Surface::new(recorder(4, 4, 100)).unwrap();
    s.target().size.set((9, 9));
    let half = Fixed::from_ratio(1, 2);
    let r = tri(&mut s, [at(0, 0, half), at(2, 0, half), at(0, 2, half)], RED, None);
    assert_eq!(r, Err(SurfaceError::Resized));
    assert!(s.target().taken.is_empty());
}

#[test]
fn line_is_drawn_from_the_smaller_end() {
    let mut s = Surface::new(recorder(8, 8, 100)).unwrap();
    s.line(Vector([5, 2]), Vector([0, 0]), RED).unwrap();
    assert_eq!(places(s.target()), vec![(0, 0), (1, 0), (2, 1), (3, 1), (4, 2), (5, 2)]);
    let mut t = Surface::new(recorder(8, 8, 100)).unwrap();
    t.line(Vector([2, 5]), Vector([0, 0]), RED).unwrap();
    assert_eq!(places(t.target()), vec![(0, 0), (0, 1), (1, 2), (1, 3), (2, 4), (2, 5)]);
}

#[test]
fn line_ends_at_the_first_refused_pixel() {
    let mut s = Surface::new(recorder(8, 8, 2)).unwrap();
    let r = s.line(Vector([0, 0]), Vector([5, 2]), RED);
    assert_eq!(r, Err(SurfaceError::Target("full at 2,1".to_string())));
    assert_eq!(places(s.target()), vec![(0, 0), (1, 0)]);
}

#[test]
fn rendering_ends_at_the_first_refused_pixel() {
    let one = Fixed::one();
    let mut o = ObjData::new();
    for (x, y) in [(-1, -1), (1, -1), (-1, 1)] {
        o.vertices.push(Vector([Fixed::from_int(x), Fixed::from_int(y), Fixed::zero(), one]));
    }
    let corner = |v| FaceInd { v, vt: None, vn: None };
    o.faces.push(Face::Tri([corner(1), corner(2), corner(3)]));
    o.faces.push(Face::Tri([corner(1), corner(2), corner(3)]));
    let light: Vec3f = Vector([Fixed::zero(), Fixed::zero(), Fixed::from_int(-1)]);
    let none: Vec3f = Vector([Fixed::zero(); 3]);

    // a surface of 4 by 4: each face covers the 10 pixels with x + y <= 4,
    // less those beyond the last column and row
    let mut all = Surface::new(recorder(4, 4, 100)).unwrap();
    flat_shaded(&mut all, Vector([4, 4]), none, &o, light, RED, None).unwrap();
    let once = places(all.target()).len() / 2;
    assert_eq!(places(all.target()).len(), 2 * once);
    assert_eq!(places(all.target())[..once], places(all.target())[once..]);

    let mut short = Surface::new(recorder(4, 4, once + 2)).unwrap();
    let r = flat_shaded(&mut short, Vector([4, 4]), none, &o, light, RED, None);
    assert!(matches!(r, Err(RenderError::Surface(SurfaceError::Target(_)))));
    assert_eq!(places(short.target()), places(all.target())[..once + 2]);
}

#[test]
fn surface_is_made_from_the_answer_of_its_target() {
    let s = Surface::with_size(recorder(1, 1, 0), Ok((7, 5))).unwrap();
    assert_eq!(s.target().size.get(), (1, 1));
    let size = s.confirm_size(Ok((7, 5))).unwrap();
    assert_eq!((size.x(), size.y()), (7, 5));
    assert_eq!(s.confirm_size(Ok((7, 6))), Err(SurfaceError::Resized));
    assert_eq!(s.confirm_size(Ok((5, 7))), Err(SurfaceError::Resized));
    assert_eq!(
        s.confirm_size(Err("gone".to_string())),
        Err(SurfaceError::Target("gone".to_string()))
    );
    // the target itself says 1 by 1
    assert_eq!(s.size(), Err(SurfaceError::Resized));
    let failed = Surface::with_size(recorder(1, 1, 0), Err("gone".to_string()));
    assert_eq!(failed.err(), Some("gone".to_string()));
}

#[test]
fn a_fill_that_hits_nothing_asks_nothing_of_the_target() {
    let half = Fixed::from_ratio(1, 2);
    let flat = [at(0, 0, half), at(1, 1, half), at(3, 3, half)];
    let beside = [at(-5, 0, half), at(-1, 0, half), at(-5, 4, half)];
    for corners in [flat, beside] {
        let mut s = Surface::new(recorder(4, 4, 0)).unwrap();
        let mut depth = vec![Fixed::min_value(); 16];
        assert_eq!(tri(&mut s, corners, RED, None), Ok(()));
        assert_eq!(tri(&mut s, corners, RED, Some(depth.as_mut_slice())), Ok(()));
        assert_eq!(fill(&mut s, Vector([4, 4]), corners, RED, &mut [], false), Ok(()));
        assert_eq!(fill(&mut s, Vector([4, 4]), corners, RED, depth.as_mut_slice(), true), Ok(()));
        assert!(depth.iter().all(|d| *d == Fixed::min_value()));
    }
    // hidden behind what the depth buffer holds
    let mut s = Surface::new(recorder(4, 4, 0)).unwrap();
    let mut depth = vec![Fixed::one(); 16];
    let hidden = [at(0, 0, half), at(3, 0, half), at(0, 3, half)];
    assert_eq!(tri(&mut s, hidden, RED, Some(depth.as_mut_slice())), Ok(()));
    assert!(tri(&mut s, hidden, RED, None).is_err());
}

#[test]
fn fill_with_a_given_size_writes_what_tri_writes() {
    let half = Fixed::from_ratio(1, 2);
    let corners = [at(0, 0, half), at(2, 0, half), at(0, 2, half)];
    let mut a = Surface::new(recorder(4, 4, 100)).unwrap();
    let mut b = Surface::new(recorder(4, 4, 100)).unwrap();
    let mut depth_a = vec![Fixed::min_value(); 16];
    let mut depth_b = vec![Fixed::min_value(); 16];
    tri(&mut a, corners, RED, Some(depth_a.as_mut_slice())).unwrap();
    fill(&mut b, Vector([4, 4]), corners, RED, depth_b.as_mut_slice(), true).unwrap();
    assert_eq!(places(a.target()), places(b.target()));
    assert_eq!(places(b.target()).len(), 6);
    assert_eq!(depth_a, depth_b);
    // without the test, the depths are not looked at
    let mut c = Surface::new(recorder(4, 4, 100)).unwrap();
    let mut untouched = vec![Fixed::one(); 16];
    fill(&mut c, Vector([4, 4]), corners, RED, untouched.as_mut_slice(), false).unwrap();
    assert_eq!(places(c.target()).len(), 6);
    assert!(untouched.iter().all(|d| *d == Fixed::one()));
}
