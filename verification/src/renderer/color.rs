use crate::renderer::ImgColor;
use vstd::prelude::*;

verus! {

/// The point in time that `std::time::Instant` holds; nothing is known of
/// it here.
#[verifier::external_type_specification]
#[verifier::external_body]
pub struct ExInstant(std::time::Instant);

/// The generator of the `random` crate, an instance of Xorshift128+; nothing
/// is known of its state here.
#[verifier::external_type_specification]
#[verifier::external_body]
pub struct ExXorshift128Plus(random::Xorshift128Plus);

/// `Instant::now` reads the clock: nothing is claimed of what it returns.
pub assume_specification[ std::time::Instant::now ]() -> (r: std::time::Instant);

/// `Instant::elapsed` is the time since the instant was taken: nothing is
/// claimed of what it returns.
pub assume_specification[ std::time::Instant::elapsed ](t: &std::time::Instant) -> (r:
    std::time::Duration);

/// `Duration::as_nanos` is the duration in whole nanoseconds: nothing is
/// claimed of what it returns.
pub assume_specification[ std::time::Duration::as_nanos ](d: &std::time::Duration) -> (r: u128);

/// Calls `random::default`, which makes a generator from a seed and accepts
/// every seed. Nothing is claimed of the generator.
#[verifier::external_body]
fn source_from(seed: u64) -> (source: random::Xorshift128Plus) {
    random::default(seed)
}

/// Calls `Source::read_u64` of the generator, which steps it and returns a
/// number. Nothing is claimed of the number.
#[verifier::external_body]
fn next_sample(source: &mut random::Xorshift128Plus) -> (sample: u64) {
    random::Source::read_u64(source)
}

/// A color of four byte channels.
#[derive(Clone, Copy, Debug, PartialEq, Eq, Structural)]
pub struct MyColor {
    pub r: u8,
    pub g: u8,
    pub b: u8,
    pub a: u8,
}

impl MyColor {
    /// The color that three drawn numbers stand for: each channel is its
    /// number modulo 255, and the color is opaque.
    pub fn from_samples(s0: u64, s1: u64, s2: u64) -> (c: MyColor)
        ensures
            c.r == s0 % 255,
            c.g == s1 % 255,
            c.b == s2 % 255,
            c.a == 255,
    {
        MyColor { r: (s0 % 255) as u8, g: (s1 % 255) as u8, b: (s2 % 255) as u8, a: 255 }
    }
}

impl ImgColor for MyColor {
    open spec fn channels(&self) -> (u8, u8, u8, u8) {
        (self.r, self.g, self.b, self.a)
    }

    open spec fn of_channels(ch: (u8, u8, u8, u8)) -> Self {
        MyColor { r: ch.0, g: ch.1, b: ch.2, a: ch.3 }
    }

    proof fn lemma_channels(c: Self, ch: (u8, u8, u8, u8)) {
    }

    fn from_rgb(r: u8, g: u8, b: u8) -> (c: Self) {
        MyColor { r, g, b, a: 255 }
    }

    fn from_rgba(r: u8, g: u8, b: u8, a: u8) -> (c: Self) {
        MyColor { r, g, b, a }
    }

    fn to_rgba(&self) -> (t: (u8, u8, u8, u8)) {
        (self.r, self.g, self.b, self.a)
    }

    /// An opaque color drawn from a generator seeded by the clock. No
    /// channel of it is 255, whatever was drawn.
    fn random() -> (c: Self)
        ensures
            c.r < 255,
            c.g < 255,
            c.b < 255,
            c.a == 255,
    {
        let nanos: u128 = std::time::Instant::now().elapsed().as_nanos();
        let seed: u64 = (nanos % 0x1_0000_0000_0000_0000) as u64;
        let mut source = source_from(seed);
        let s0: u64 = next_sample(&mut source);
        let s1: u64 = next_sample(&mut source);
        let s2: u64 = next_sample(&mut source);
        MyColor::from_samples(s0, s1, s2)
    }
}

} // verus!
