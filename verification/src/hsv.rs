use crate::math::fixed::saturate;
use crate::math::fixed::Fixed;
use vstd::prelude::*;

verus! {

/// Whether hue, saturation and value, given raw, are in their ranges: a hue
/// from 0 to 360 and the other two from 0 to 1.
pub open spec fn in_bounds(hue: int, saturation: int, value: int) -> bool {
    &&& 0 <= hue <= 360 * 65536
    &&& 0 <= saturation <= 65536
    &&& 0 <= value <= 65536
}

/// The byte of a raw channel from 0 to 1: 255 times the channel, without
/// its fraction.
pub open spec fn channel_byte(raw: int) -> u8 {
    let scaled = saturate(raw * 255) / 65536;
    if scaled < 0 {
        0u8
    } else if scaled > 255 {
        255u8
    } else {
        scaled as u8
    }
}

/// The raw chroma, second largest component and rest of a color: the chroma
/// is value times saturation, the second component is the chroma times one
/// minus the distance of the hue's sixth from the nearest odd number, and the
/// rest is value minus chroma.
pub open spec fn parts(hue: int, saturation: int, value: int) -> (int, int, int) {
    let c = Fixed::mul_raw(value, saturation);
    let h = Fixed::div_raw(hue, 3932160);
    let d = Fixed::sub_raw(h % 131072, 65536);
    let x = Fixed::mul_raw(c, Fixed::sub_raw(65536, if d < 0 { saturate(-d) } else { d }));
    (c, x, Fixed::sub_raw(value, c))
}

/// Red, green and blue of a color given by raw hue, saturation and value:
/// the sixth of the wheel that the hue lies in decides which channel gets
/// the chroma, which the second component and which none, and the rest is
/// added to each.
pub open spec fn rgb_of(hue: int, saturation: int, value: int) -> (u8, u8, u8) {
    let (c, x, m) = parts(hue, saturation, value);
    let h = Fixed::div_raw(hue, 3932160);
    let (r, g, b) = if h < 65536 {
        (c, x, 0int)
    } else if h < 2 * 65536 {
        (x, c, 0int)
    } else if h < 3 * 65536 {
        (0int, c, x)
    } else if h < 4 * 65536 {
        (0int, x, c)
    } else if h < 5 * 65536 {
        (x, 0int, c)
    } else {
        (c, 0int, x)
    };
    (
        channel_byte(Fixed::add_raw(r, m)),
        channel_byte(Fixed::add_raw(g, m)),
        channel_byte(Fixed::add_raw(b, m)),
    )
}

/// One channel as a byte.
fn to_byte(v: Fixed) -> (b: u8)
    ensures
        b == channel_byte(v.0 as int),
{
    proof {
        assert((v.0 * (255 * 65536)) == (v.0 * 255) * 65536) by (nonlinear_arith);
        vstd::arithmetic::div_mod::lemma_div_multiples_vanish(v.0 * 255, 65536);
    }
    let scaled: i32 = v.mul(Fixed::from_int(255)).floor();
    if scaled < 0 {
        0
    } else if scaled > 255 {
        255
    } else {
        scaled as u8
    }
}

/// Red, green and blue of the color with the given hue, from 0 to 360,
/// saturation and value, both from 0 to 1.
pub fn hsv_to_rgb(hue: Fixed, saturation: Fixed, value: Fixed) -> (rgb: (u8, u8, u8))
    requires
        in_bounds(hue.0 as int, saturation.0 as int, value.0 as int),
    ensures
        rgb == rgb_of(hue.0 as int, saturation.0 as int, value.0 as int),
{
    let c: Fixed = value.mul(saturation);
    let h: Fixed = hue.div(Fixed::from_int(60));
    assert(0 <= h.0) by {
        vstd::arithmetic::div_mod::lemma_div_pos_is_pos(hue.0 * 65536, 3932160);
    }
    let d: Fixed = Fixed(h.0 % 131072).sub(Fixed::one());
    let distance: Fixed = if d.0 < 0 { d.neg() } else { d };
    let x: Fixed = c.mul(Fixed::one().sub(distance));
    let m: Fixed = value.sub(c);
    let zero: Fixed = Fixed::zero();

    let (r, g, b): (Fixed, Fixed, Fixed) = if h.0 < 65536 {
        (c, x, zero)
    } else if h.0 < 2 * 65536 {
        (x, c, zero)
    } else if h.0 < 3 * 65536 {
        (zero, c, x)
    } else if h.0 < 4 * 65536 {
        (zero, x, c)
    } else if h.0 < 5 * 65536 {
        (x, zero, c)
    } else {
        (c, zero, x)
    };
    (to_byte(r.add(m)), to_byte(g.add(m)), to_byte(b.add(m)))
}

} // verus!
