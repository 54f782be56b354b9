use raster::hsv::hsv_to_rgb;
use raster::math::fixed::Fixed;

fn hsv(h: i32, s: Fixed, v: Fixed) -> (u8, u8, u8) {
    hsv_to_rgb(Fixed::from_int(h), s, v)
}

#[test]
fn primary_and_secondary_colors() {
    let one = Fixed::one();
    assert_eq!(hsv(0, one, one), (255, 0, 0));
    assert_eq!(hsv(60, one, one), (255, 255, 0));
    assert_eq!(hsv(120, one, one), (0, 255, 0));
    assert_eq!(hsv(180, one, one), (0, 255, 255));
    assert_eq!(hsv(240, one, one), (0, 0, 255));
    assert_eq!(hsv(300, one, one), (255, 0, 255));
    assert_eq!(hsv(360, one, one), (255, 0, 0));
}

#[test]
fn no_saturation_is_gray() {
    let half = Fixed::from_ratio(1, 2);
    assert_eq!(hsv(0, Fixed::zero(), half), (127, 127, 127));
    assert_eq!(hsv(200, Fixed::zero(), Fixed::one()), (255, 255, 255));
    assert_eq!(hsv(200, Fixed::one(), Fixed::zero()), (0, 0, 0));
}

#[test]
fn between_two_sixths() {
    let one = Fixed::one();
    // half way from red to yellow
    assert_eq!(hsv(30, one, one), (255, 127, 0));
    // half way from green to cyan, at half value
    assert_eq!(hsv(150, one, Fixed::from_ratio(1, 2)), (0, 127, 63));
    // a pale blue
    assert_eq!(hsv(240, Fixed::from_ratio(1, 2), one), (127, 127, 255));
}
