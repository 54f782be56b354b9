use raster::math::fixed::Fixed;
use raster::math::vector::Vec3f;
use raster::math::vector::Vector;
use raster::renderer::bitmap::Bitmap;
use raster::renderer::color::MyColor;
use raster::renderer::triangle::barycentric;
use raster::renderer::triangle::reset_depth;
use raster::renderer::triangle::tri;

const RED: MyColor = MyColor { r: 255, g: 0, b: 0, a: 255 };
const GREEN: MyColor = MyColor { r: 0, g: 255, b: 0, a: 255 };
const BLACK: MyColor = MyColor { r: 0, g: 0, b: 0, a: 255 };

fn at(x: i32, y: i32, depth: Fixed) -> Vec3f {
    Vector([Fixed::from_int(x), Fixed::from_int(y), depth])
}

fn half() -> Fixed {
    Fixed::from_ratio(1, 2)
}

#[test]
fn fills_right_triangle_with_depth() {
    let mut img = Bitmap::new(10, 10, BLACK).unwrap();
    let mut depth = vec![Fixed::min_value(); 100];
    let corners = [at(1, 1, half()), at(8, 1, half()), at(1, 8, half())];
    tri(&mut img, corners, RED, Some(depth.as_mut_slice())).unwrap();
    for x in 0..10 {
        for y in 0..10 {
            let inside = x >= 1 && y >= 1 && (x - 1) + (y - 1) <= 7;
            let expected = if inside { RED } else { BLACK };
            assert_eq!(img.get(x, y), Some(expected), "pixel {x},{y}");
            let cell = depth[(x + y * 10) as usize];
            if inside {
                assert_eq!(cell, half(), "depth {x},{y}");
            } else {
                assert_eq!(cell, Fixed::min_value(), "depth {x},{y}");
            }
        }
    }
}

#[test]
fn nearer_triangle_wins_when_drawn_second() {
    let mut img = Bitmap::new(10, 10, BLACK).unwrap();
    let mut depth = vec![Fixed::min_value(); 100];
    let far = Fixed::from_ratio(2, 10);
    let near = Fixed::from_ratio(9, 10);
    let first = [at(0, 0, far), at(9, 0, far), at(9, 9, far)];
    let second = [at(9, 9, near), at(9, 0, near), at(0, 0, near)];
    tri(&mut img, first, RED, Some(depth.as_mut_slice())).unwrap();
    assert_eq!(img.get(5, 5), Some(RED));
    assert_eq!(depth[5 + 5 * 10], far);
    tri(&mut img, second, GREEN, Some(depth.as_mut_slice())).unwrap();
    assert_eq!(img.get(5, 5), Some(GREEN));
    assert_eq!(depth[5 + 5 * 10], near);
}

#[test]
fn nearer_triangle_wins_when_drawn_first() {
    let mut img = Bitmap::new(10, 10, BLACK).unwrap();
    let mut depth = vec![Fixed::min_value(); 100];
    let far = Fixed::from_ratio(2, 10);
    let near = Fixed::from_ratio(9, 10);
    let a = [at(0, 0, far), at(9, 0, far), at(9, 9, far)];
    let b = [at(9, 9, near), at(9, 0, near), at(0, 0, near)];
    tri(&mut img, b, GREEN, Some(depth.as_mut_slice())).unwrap();
    tri(&mut img, a, RED, Some(depth.as_mut_slice())).unwrap();
    assert_eq!(img.get(5, 5), Some(GREEN));
    assert_eq!(depth[5 + 5 * 10], near);
}

#[test]
fn equal_depth_keeps_the_earlier_draw() {
    let mut img = Bitmap::new(4, 4, BLACK).unwrap();
    let mut depth = vec![Fixed::min_value(); 16];
    let t = [at(0, 0, half()), at(3, 0, half()), at(0, 3, half())];
    tri(&mut img, t, RED, Some(depth.as_mut_slice())).unwrap();
    tri(&mut img, t, GREEN, Some(depth.as_mut_slice())).unwrap();
    assert_eq!(img.get(1, 1), Some(RED));
}

#[test]
fn without_depth_buffer_every_covered_pixel_is_written() {
    let mut img = Bitmap::new(4, 4, BLACK).unwrap();
    let t = [at(0, 0, half()), at(3, 0, half()), at(0, 3, half())];
    tri(&mut img, t, RED, None).unwrap();
    tri(&mut img, t, GREEN, None).unwrap();
    let mut count = 0;
    for x in 0..4 {
        for y in 0..4 {
            if img.get(x, y) == Some(GREEN) {
                assert!(x + y <= 3);
                count += 1;
            } else {
                assert_eq!(img.get(x, y), Some(BLACK));
            }
        }
    }
    assert_eq!(count, 10);
}

#[test]
fn collinear_triangle_fills_nothing() {
    let mut img = Bitmap::new(10, 10, BLACK).unwrap();
    let t = [at(1, 1, half()), at(4, 4, half()), at(8, 8, half())];
    tri(&mut img, t, RED, None).unwrap();
    for x in 0..10 {
        for y in 0..10 {
            assert_eq!(img.get(x, y), Some(BLACK));
        }
    }
}

#[test]
fn tiny_triangle_counts_as_degenerate() {
    // area 1/200 of a pixel: the cross product is exactly one hundredth
    let tenth = Fixed::from_ratio(1, 10);
    let t = [
        at(0, 0, half()),
        Vector([tenth, Fixed::zero(), half()]),
        Vector([Fixed::zero(), tenth, half()]),
    ];
    assert_eq!(barycentric(t, at(0, 0, Fixed::zero())), None);
    let mut img = Bitmap::new(2, 2, BLACK).unwrap();
    tri(&mut img, t, RED, None).unwrap();
    assert_eq!(img.get(0, 0), Some(BLACK));
}

#[test]
fn triangle_is_clamped_to_the_surface() {
    let mut img = Bitmap::new(4, 4, BLACK).unwrap();
    let t = [at(-5, -5, half()), at(20, -5, half()), at(-5, 20, half())];
    tri(&mut img, t, RED, None).unwrap();
    for x in 0..4 {
        for y in 0..4 {
            assert_eq!(img.get(x, y), Some(RED));
        }
    }
}

#[test]
fn weights_sum_to_one_and_are_positive_inside() {
    let t = [at(1, 1, half()), at(8, 1, half()), at(1, 8, half())];
    let w = barycentric(t, at(3, 3, Fixed::zero())).unwrap();
    assert_eq!(w.a + w.b + w.c, w.den);
    assert!(w.den > 0 && w.a > 0 && w.b > 0 && w.c > 0);
    assert!(w.inside());
    // 7 * 7 pixels squared, in raw units
    assert_eq!(w.den, 49 * 65536 * 65536);
    assert_eq!(w.b, 2 * 7 * 65536 * 65536);
    assert_eq!(w.c, 2 * 7 * 65536 * 65536);
}

#[test]
fn weights_at_each_corner() {
    let t = [at(1, 1, half()), at(8, 1, half()), at(1, 8, half())];
    let a = barycentric(t, t[0]).unwrap();
    assert_eq!((a.a, a.b, a.c), (a.den, 0, 0));
    let b = barycentric(t, t[1]).unwrap();
    assert_eq!((b.a, b.b, b.c), (0, b.den, 0));
    let c = barycentric(t, t[2]).unwrap();
    assert_eq!((c.a, c.b, c.c), (0, 0, c.den));
}

#[test]
fn weights_outside_have_a_negative_one() {
    let t = [at(1, 1, half()), at(8, 1, half()), at(1, 8, half())];
    let w = barycentric(t, at(9, 9, Fixed::zero())).unwrap();
    assert!(!w.inside());
    assert_eq!(w.a + w.b + w.c, w.den);
}

#[test]
fn depth_is_interpolated_between_corners() {
    let t = [
        at(0, 0, Fixed::from_int(0)),
        at(4, 0, Fixed::from_int(4)),
        at(0, 4, Fixed::from_int(8)),
    ];
    let w = barycentric(t, at(1, 1, Fixed::zero())).unwrap();
    assert_eq!(w.interpolate(t[0].0[2], t[1].0[2], t[2].0[2]), Fixed::from_int(3));
    let mut img = Bitmap::new(5, 5, BLACK).unwrap();
    let mut depth = vec![Fixed::min_value(); 25];
    tri(&mut img, t, RED, Some(depth.as_mut_slice())).unwrap();
    assert_eq!(depth[1 + 5], Fixed::from_int(3));
    assert_eq!(depth[2 + 2 * 5], Fixed::from_int(6));
}

/// The weights of a point in floating point: the cross product of the two
/// edge vectors, the third component dividing the other two; none for a
/// third component of a hundredth or less.
fn float_weights(t: [[f64; 2]; 3], p: [f64; 2]) -> Option<[f64; 3]> {
    let s0 = [t[2][0] - t[0][0], t[1][0] - t[0][0], t[0][0] - p[0]];
    let s1 = [t[2][1] - t[0][1], t[1][1] - t[0][1], t[0][1] - p[1]];
    let u = [
        s0[1] * s1[2] - s0[2] * s1[1],
        s0[2] * s1[0] - s0[0] * s1[2],
        s0[0] * s1[1] - s0[1] * s1[0],
    ];
    if u[2].abs() > 1e-2 {
        Some([1. - (u[0] + u[1]) / u[2], u[1] / u[2], u[0] / u[2]])
    } else {
        None
    }
}

#[test]
fn fill_agrees_with_floating_point_on_half_pixel_corners() {
    let mut seed: u32 = 12345;
    let mut next = move || {
        seed = seed.wrapping_mul(1664525).wrapping_add(1013904223);
        // a half-pixel coordinate from -2 to 12
        ((seed >> 16) % 29) as i32 - 4
    };
    for _ in 0..300 {
        let halves = [[next(), next()], [next(), next()], [next(), next()]];
        let corners = [
            Vector([Fixed::from_ratio(halves[0][0], 2), Fixed::from_ratio(halves[0][1], 2), half()]),
            Vector([Fixed::from_ratio(halves[1][0], 2), Fixed::from_ratio(halves[1][1], 2), half()]),
            Vector([Fixed::from_ratio(halves[2][0], 2), Fixed::from_ratio(halves[2][1], 2), half()]),
        ];
        let floats = halves.map(|c| [c[0] as f64 / 2., c[1] as f64 / 2.]);
        let mut img = Bitmap::new(10, 10, BLACK).unwrap();
        tri(&mut img, corners, RED, None).unwrap();
        for x in 0..10 {
            for y in 0..10 {
                let covered = match float_weights(floats, [x as f64, y as f64]) {
                    Some(w) => w.iter().all(|v| *v >= 0.),
                    None => false,
                };
                let expected = if covered { RED } else { BLACK };
                assert_eq!(img.get(x, y), Some(expected), "{halves:?} at {x},{y}");
            }
        }
    }
}

#[test]
fn reset_depth_sets_every_cell_to_the_farthest() {
    let mut depth = vec![Fixed::one(), Fixed::zero(), Fixed::max_value(), Fixed(-5)];
    reset_depth(depth.as_mut_slice());
    assert_eq!(depth, vec![Fixed::min_value(); 4]);
    let mut none: Vec<Fixed> = vec![];
    reset_depth(none.as_mut_slice());
    assert!(none.is_empty());
    // after a reset the first fill wins at every pixel it covers
    let mut img = Bitmap::new(4, 4, BLACK).unwrap();
    let mut z = vec![Fixed::max_value(); 16];
    let t = [at(0, 0, Fixed::zero()), at(3, 0, Fixed::zero()), at(0, 3, Fixed::zero())];
    tri(&mut img, t, RED, Some(z.as_mut_slice())).unwrap();
    assert_eq!(img.get(0, 0), Some(BLACK));
    reset_depth(z.as_mut_slice());
    tri(&mut img, t, RED, Some(z.as_mut_slice())).unwrap();
    assert_eq!(img.get(0, 0), Some(RED));
}
