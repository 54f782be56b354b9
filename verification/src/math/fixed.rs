use vstd::arithmetic::div_mod::lemma_fundamental_div_mod;
use vstd::arithmetic::div_mod::lemma_fundamental_div_mod_converse_div;
use vstd::prelude::*;

verus! {

/// The raw value of one: a `Fixed` holds its value times this.
pub const SCALE: i64 = 65536;

/// Half of `SCALE`, the raw value of one half.
pub const HALF: i64 = 32768;

/// The quotient of `n` by `d`, rounded toward negative infinity.
pub open spec fn floor_div(n: int, d: int) -> int
    recommends
        d != 0,
{
    if d > 0 {
        n / d
    } else {
        (-n) / (-d)
    }
}

/// The raw value nearest to `v` that a `Fixed` can hold.
pub open spec fn saturate(v: int) -> int {
    if v < i32::MIN {
        i32::MIN as int
    } else if v > i32::MAX {
        i32::MAX as int
    } else {
        v
    }
}

/// The integer nearest to `raw / SCALE`, a tie going away from zero.
pub open spec fn round_raw(raw: int) -> int {
    if raw >= 0 {
        (raw + HALF) / (SCALE as int)
    } else {
        -((-raw + HALF) / (SCALE as int))
    }
}

/// The largest `r >= 0` whose square is at most `n`.
pub open spec fn is_floor_sqrt(n: int, r: int) -> bool {
    0 <= r && r * r <= n < (r + 1) * (r + 1)
}

/// Any two floor square roots of one number are equal.
pub proof fn lemma_floor_sqrt_unique(n: int, r1: int, r2: int)
    requires
        is_floor_sqrt(n, r1),
        is_floor_sqrt(n, r2),
    ensures
        r1 == r2,
{
    if r1 < r2 {
        assert((r1 + 1) * (r1 + 1) <= r2 * r2) by (nonlinear_arith)
            requires
                0 <= r1,
                r1 + 1 <= r2,
        ;
    } else if r2 < r1 {
        assert((r2 + 1) * (r2 + 1) <= r1 * r1) by (nonlinear_arith)
            requires
                0 <= r2,
                r2 + 1 <= r1,
        ;
    }
}

/// The floor of the square root of `n`; zero for a negative `n`.
pub open spec fn floor_sqrt(n: int) -> int {
    if n < 0 {
        0
    } else {
        choose|r: int| is_floor_sqrt(n, r)
    }
}

/// Every natural number has a floor square root.
pub proof fn lemma_floor_sqrt(n: int)
    requires
        n >= 0,
    ensures
        is_floor_sqrt(n, floor_sqrt(n)),
    decreases n,
{
    if n == 0 {
        assert(is_floor_sqrt(0, 0));
    } else {
        lemma_floor_sqrt(n - 1);
        let r: int = floor_sqrt(n - 1);
        if (r + 1) * (r + 1) <= n {
            assert(n < (r + 2) * (r + 2)) by (nonlinear_arith)
                requires
                    n - 1 < (r + 1) * (r + 1),
                    0 <= r,
            ;
            assert(is_floor_sqrt(n, r + 1));
        } else {
            assert(is_floor_sqrt(n, r));
        }
    }
}

/// Divides rounding toward negative infinity, whatever the signs.
pub fn div_floor(n: i128, d: i128) -> (q: i128)
    requires
        d != 0,
        n > i128::MIN,
        d > i128::MIN,
    ensures
        q == floor_div(n as int, d as int),
{
    let same: bool = (n < 0) == (d < 0);
    let an: i128 = if n < 0 { -n } else { n };
    let ad: i128 = if d < 0 { -d } else { d };
    let q: i128 = an / ad;
    let r: i128 = an % ad;
    proof {
        lemma_fundamental_div_mod(an as int, ad as int);
        assert(ad * q == q * ad) by (nonlinear_arith);
    }
    if same {
        q
    } else if r == 0 {
        proof {
            assert((-q) * ad + 0 == -an) by (nonlinear_arith)
                requires
                    an == q * ad + r,
                    r == 0,
            ;
            lemma_fundamental_div_mod_converse_div(-an as int, ad as int, -q as int, 0);
        }
        -q
    } else {
        proof {
            assert((-q - 1) * ad + (ad - r) == -an) by (nonlinear_arith)
                requires
                    an == q * ad + r,
            ;
            lemma_fundamental_div_mod_converse_div(-an as int, ad as int, -q - 1, ad - r);
        }
        -q - 1
    }
}

/// The floor of the square root of `n`.
pub fn isqrt(n: u128) -> (r: u128)
    ensures
        is_floor_sqrt(n as int, r as int),
        r == floor_sqrt(n as int),
        r < 0x1_0000_0000_0000_0000,
{
    let mut lo: u128 = 0;
    let mut hi: u128 = 0x1_0000_0000_0000_0000;
    assert(hi * hi > n) by (nonlinear_arith)
        requires
            hi == 0x1_0000_0000_0000_0000u128,
            n <= u128::MAX,
    ;
    while hi - lo > 1
        invariant
            lo < hi <= 0x1_0000_0000_0000_0000,
            lo * lo <= n < hi * hi,
        decreases hi - lo,
    {
        let mid: u128 = lo + (hi - lo) / 2;
        assert(mid * mid < 0x1_0000_0000_0000_0000 * 0x1_0000_0000_0000_0000) by (nonlinear_arith)
            requires
                0 <= mid < 0x1_0000_0000_0000_0000,
        ;
        if mid * mid <= n {
            lo = mid;
        } else {
            hi = mid;
        }
    }
    proof {
        assert(is_floor_sqrt(n as int, lo as int));
        lemma_floor_sqrt_unique(n as int, lo as int, floor_sqrt(n as int));
    }
    lo
}

/// A signed fixed-point number: the value is the raw integer `self.0`
/// divided by `SCALE`. Results that cannot be held exactly are rounded toward
/// negative infinity; results beyond the range become the nearest end of it.
#[derive(Clone, Copy, Debug, PartialEq, Eq, Structural)]
pub struct Fixed(pub i32);

impl Fixed {
    /// The raw integer, as a mathematical integer.
    pub open spec fn raw(self) -> int {
        self.0 as int
    }

    /// The raw value of the sum.
    pub open spec fn add_raw(a: int, b: int) -> int {
        saturate(a + b)
    }

    /// The raw value of the difference.
    pub open spec fn sub_raw(a: int, b: int) -> int {
        saturate(a - b)
    }

    /// The raw value of the product.
    pub open spec fn mul_raw(a: int, b: int) -> int {
        saturate(floor_div(a * b, SCALE as int))
    }

    /// The raw value of the quotient, for a divisor other than zero.
    pub open spec fn div_raw(a: int, b: int) -> int {
        saturate(floor_div(a * SCALE, b))
    }

    pub fn zero() -> (r: Fixed)
        ensures
            r.0 == 0,
    {
        Fixed(0)
    }

    pub fn one() -> (r: Fixed)
        ensures
            r.0 == SCALE,
    {
        Fixed(65536)
    }

    /// The least value of the type.
    pub fn min_value() -> (r: Fixed)
        ensures
            r.0 == i32::MIN,
    {
        Fixed(i32::MIN)
    }

    /// The greatest value of the type.
    pub fn max_value() -> (r: Fixed)
        ensures
            r.0 == i32::MAX,
    {
        Fixed(i32::MAX)
    }

    /// The value from its raw integer, saturated.
    pub fn from_wide(v: i128) -> (r: Fixed)
        ensures
            r.0 == saturate(v as int),
    {
        if v < -2147483648 {
            Fixed(i32::MIN)
        } else if v > 2147483647 {
            Fixed(i32::MAX)
        } else {
            Fixed(v as i32)
        }
    }

    /// The whole number `i`.
    pub fn from_int(i: i32) -> (r: Fixed)
        ensures
            r.0 == saturate(i * SCALE),
    {
        Fixed::from_wide(i as i128 * 65536)
    }

    /// The ratio `n / d`.
    pub fn from_ratio(n: i32, d: i32) -> (r: Fixed)
        requires
            d != 0,
        ensures
            r.0 == saturate(floor_div(n * SCALE, d as int)),
    {
        Fixed::from_wide(div_floor(n as i128 * 65536, d as i128))
    }

    /// The greatest whole number not above the value.
    pub fn floor(self) -> (r: i32)
        ensures
            r == self.0 as int / (SCALE as int),
    {
        let q: i128 = div_floor(self.0 as i128, 65536);
        q as i32
    }

    /// The nearest whole number, a tie going away from zero.
    pub fn round(self) -> (r: i32)
        ensures
            r == round_raw(self.0 as int),
    {
        let v: i64 = self.0 as i64;
        if v >= 0 {
            ((v + 32768) / 65536) as i32
        } else {
            (-((-v + 32768) / 65536)) as i32
        }
    }

    pub fn neg(self) -> (r: Fixed)
        ensures
            r.0 == saturate(-self.0),
    {
        Fixed::from_wide(-(self.0 as i128))
    }

    pub fn add(self, rhs: Fixed) -> (r: Fixed)
        ensures
            r.0 == Fixed::add_raw(self.0 as int, rhs.0 as int),
    {
        Fixed::from_wide(self.0 as i128 + rhs.0 as i128)
    }

    pub fn sub(self, rhs: Fixed) -> (r: Fixed)
        ensures
            r.0 == Fixed::sub_raw(self.0 as int, rhs.0 as int),
    {
        Fixed::from_wide(self.0 as i128 - rhs.0 as i128)
    }

    pub fn mul(self, rhs: Fixed) -> (r: Fixed)
        ensures
            r.0 == Fixed::mul_raw(self.0 as int, rhs.0 as int),
    {
        let a: i128 = self.0 as i128;
        let b: i128 = rhs.0 as i128;
        assert(-0x4000_0000_0000_0000 <= a * b <= 0x4000_0000_0000_0000) by (nonlinear_arith)
            requires
                -0x8000_0000 <= a <= 0x8000_0000,
                -0x8000_0000 <= b <= 0x8000_0000,
        ;
        Fixed::from_wide(div_floor(a * b, 65536))
    }

    pub fn div(self, rhs: Fixed) -> (r: Fixed)
        requires
            rhs.0 != 0,
        ensures
            r.0 == Fixed::div_raw(self.0 as int, rhs.0 as int),
    {
        Fixed::from_wide(div_floor(self.0 as i128 * 65536, rhs.0 as i128))
    }

    /// The smaller of the two.
    pub fn min(self, rhs: Fixed) -> (r: Fixed)
        ensures
            r.0 == if self.0 <= rhs.0 { self.0 } else { rhs.0 },
    {
        if self.0 <= rhs.0 { self } else { rhs }
    }

    /// The greater of the two.
    pub fn max(self, rhs: Fixed) -> (r: Fixed)
        ensures
            r.0 == if self.0 >= rhs.0 { self.0 } else { rhs.0 },
    {
        if self.0 >= rhs.0 { self } else { rhs }
    }
}

} // verus!
