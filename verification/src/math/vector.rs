use crate::math::fixed::floor_sqrt;
use crate::math::fixed::isqrt;
use crate::math::fixed::lemma_floor_sqrt;
use crate::math::fixed::round_raw;
use crate::math::fixed::saturate;
use crate::math::fixed::Fixed;
use vstd::prelude::*;

verus! {

/// An ordered tuple of `N` components of type `T`.
#[derive(Clone, Copy, Debug, PartialEq)]
pub struct Vector<const N: usize, T>(pub [T; N]);

pub type Veci<const N: usize> = Vector<N, i32>;

pub type Vec2i = Veci<2>;

pub type Vec3i = Veci<3>;

pub type Vec4i = Veci<4>;

pub type Vecf<const N: usize> = Vector<N, Fixed>;

pub type Vec2f = Vecf<2>;

pub type Vec3f = Vecf<3>;

pub type Vec4f = Vecf<4>;

impl<const N: usize, T> Vector<N, T> {
    pub fn new(values: [T; N]) -> (r: Self)
        ensures
            r.0 == values,
    {
        Vector(values)
    }
}

impl<const N: usize, T: Copy> Vector<N, T> {
    pub fn x(&self) -> (r: T)
        requires
            N > 0,
        ensures
            r == self.0[0],
    {
        self.0[0]
    }

    pub fn y(&self) -> (r: T)
        requires
            N > 1,
        ensures
            r == self.0[1],
    {
        self.0[1]
    }

    pub fn z(&self) -> (r: T)
        requires
            N > 2,
        ensures
            r == self.0[2],
    {
        self.0[2]
    }

    pub fn w(&self) -> (r: T)
        requires
            N > 3,
        ensures
            r == self.0[3],
    {
        self.0[3]
    }

    pub fn width(&self) -> (r: T)
        requires
            N > 0,
        ensures
            r == self.0[0],
    {
        self.0[0]
    }

    pub fn height(&self) -> (r: T)
        requires
            N > 1,
        ensures
            r == self.0[1],
    {
        self.0[1]
    }

    pub fn u(&self) -> (r: T)
        requires
            N > 0,
        ensures
            r == self.0[0],
    {
        self.0[0]
    }

    pub fn v(&self) -> (r: T)
        requires
            N > 1,
        ensures
            r == self.0[1],
    {
        self.0[1]
    }
}

/// The quotient of `a` by `b`, rounded toward zero.
pub open spec fn trunc_div(a: int, b: int) -> int
    recommends
        b != 0,
{
    let m: int = if a >= 0 { a } else { -a };
    let d: int = if b > 0 { b } else { -b };
    if (a >= 0) == (b > 0) {
        m / d
    } else {
        -(m / d)
    }
}

/// Whether `v` is the value of an `i32`.
pub open spec fn fits_i32(v: int) -> bool {
    i32::MIN <= v <= i32::MAX
}

impl<const N: usize> Veci<N> {
    pub fn zero() -> (r: Self)
        ensures
            forall|i: int| 0 <= i < N ==> r.0[i] == 0,
    {
        Vector([0i32; N])
    }

    pub fn one() -> (r: Self)
        ensures
            forall|i: int| 0 <= i < N ==> r.0[i] == 1,
    {
        Vector([1i32; N])
    }

    pub fn neg(self) -> (r: Self)
        requires
            forall|i: int| 0 <= i < N ==> self.0[i] != i32::MIN,
        ensures
            forall|i: int| 0 <= i < N ==> r.0[i] == -self.0[i],
    {
        let mut out: [i32; N] = [0i32; N];
        let mut i: usize = 0;
        while i < N
            invariant
                i <= N,
                forall|j: int| 0 <= j < N ==> self.0[j] != i32::MIN,
                forall|j: int| 0 <= j < i ==> out[j] == -self.0[j],
            decreases N - i,
        {
            out[i] = -self.0[i];
            i += 1;
        }
        Vector(out)
    }

    pub fn add(self, rhs: Self) -> (r: Self)
        requires
            forall|i: int| 0 <= i < N ==> fits_i32(self.0[i] + rhs.0[i]),
        ensures
            forall|i: int| 0 <= i < N ==> r.0[i] == self.0[i] + rhs.0[i],
    {
        let mut out: [i32; N] = [0i32; N];
        let mut i: usize = 0;
        while i < N
            invariant
                i <= N,
                forall|j: int| 0 <= j < N ==> fits_i32(self.0[j] + rhs.0[j]),
                forall|j: int| 0 <= j < i ==> out[j] == self.0[j] + rhs.0[j],
            decreases N - i,
        {
            assert(fits_i32(self.0[i as int] + rhs.0[i as int]));
            out[i] = self.0[i] + rhs.0[i];
            i += 1;
        }
        Vector(out)
    }

    pub fn sub(self, rhs: Self) -> (r: Self)
        requires
            forall|i: int| 0 <= i < N ==> fits_i32(self.0[i] - rhs.0[i]),
        ensures
            forall|i: int| 0 <= i < N ==> r.0[i] == self.0[i] - rhs.0[i],
    {
        let mut out: [i32; N] = [0i32; N];
        let mut i: usize = 0;
        while i < N
            invariant
                i <= N,
                forall|j: int| 0 <= j < N ==> fits_i32(self.0[j] - rhs.0[j]),
                forall|j: int| 0 <= j < i ==> out[j] == self.0[j] - rhs.0[j],
            decreases N - i,
        {
            assert(fits_i32(self.0[i as int] - rhs.0[i as int]));
            out[i] = self.0[i] - rhs.0[i];
            i += 1;
        }
        Vector(out)
    }

    /// Every component times `rhs`.
    pub fn mul(self, rhs: i32) -> (r: Self)
        requires
            forall|i: int| 0 <= i < N ==> fits_i32(self.0[i] * rhs),
        ensures
            forall|i: int| 0 <= i < N ==> r.0[i] == self.0[i] * rhs,
    {
        let mut out: [i32; N] = [0i32; N];
        let mut i: usize = 0;
        while i < N
            invariant
                i <= N,
                forall|j: int| 0 <= j < N ==> fits_i32(self.0[j] * rhs),
                forall|j: int| 0 <= j < i ==> out[j] == self.0[j] * rhs,
            decreases N - i,
        {
            assert(fits_i32(self.0[i as int] * rhs));
            out[i] = self.0[i] * rhs;
            i += 1;
        }
        Vector(out)
    }

    /// Every component divided by `rhs`, rounded toward zero.
    pub fn div(self, rhs: i32) -> (r: Self)
        requires
            rhs != 0,
            rhs == -1 ==> forall|i: int| 0 <= i < N ==> self.0[i] != i32::MIN,
        ensures
            forall|i: int| 0 <= i < N ==> r.0[i] == trunc_div(self.0[i] as int, rhs as int),
    {
        let mut out: [i32; N] = [0i32; N];
        let mut i: usize = 0;
        while i < N
            invariant
                i <= N,
                rhs != 0,
                rhs == -1 ==> forall|j: int| 0 <= j < N ==> self.0[j] != i32::MIN,
                forall|j: int| 0 <= j < i ==> out[j] == trunc_div(self.0[j] as int, rhs as int),
            decreases N - i,
        {
            let a: i128 = self.0[i] as i128;
            let b: i128 = rhs as i128;
            let m: i128 = if a >= 0 { a } else { -a };
            let d: i128 = if b > 0 { b } else { -b };
            assert(rhs == -1 ==> self.0[i as int] != i32::MIN);
            assert(0 <= m / d <= m && (d >= 2 && m > 0 ==> m / d < m)) by (nonlinear_arith)
                requires
                    m >= 0,
                    d >= 1,
            ;
            let q: i128 = if (a >= 0) == (b > 0) { m / d } else { -(m / d) };
            out[i] = q as i32;
            i += 1;
        }
        Vector(out)
    }
}

/// The raw value of the dot product of the first `n` components of `a` and
/// `b`: each product is rounded and added to the sum so far, which
/// saturates.
pub open spec fn dot_raw(a: Seq<Fixed>, b: Seq<Fixed>, n: int) -> int
    decreases n,
{
    if n <= 0 {
        0
    } else {
        Fixed::add_raw(dot_raw(a, b, n - 1), Fixed::mul_raw(a[n - 1].0 as int, b[n - 1].0 as int))
    }
}

/// The exact sum of the squares of the first `n` raw components of `a`.
pub open spec fn sum_sq(a: Seq<Fixed>, n: int) -> int
    decreases n,
{
    if n <= 0 {
        0
    } else {
        sum_sq(a, n - 1) + a[n - 1].0 * a[n - 1].0
    }
}

/// The raw value of the length of `a`: the square root of the exact sum of
/// squares, rounded down.
pub open spec fn len_raw(a: Seq<Fixed>) -> int {
    saturate(floor_sqrt(sum_sq(a, a.len() as int)))
}

/// The sum of squares is not negative, and it is zero only for the zero
/// vector.
pub proof fn lemma_sum_sq_bounds(a: Seq<Fixed>, n: int)
    requires
        0 <= n <= a.len(),
    ensures
        0 <= sum_sq(a, n) <= n * 0x4000_0000_0000_0000,
        sum_sq(a, n) == 0 <==> forall|i: int| 0 <= i < n ==> a[i].0 == 0,
    decreases n,
{
    if n > 0 {
        lemma_sum_sq_bounds(a, n - 1);
        let v: int = a[n - 1].0 as int;
        assert(0 <= v * v <= 0x4000_0000_0000_0000 && (v * v == 0 <==> v == 0)) by (nonlinear_arith)
            requires
                -0x8000_0000 <= v <= 0x8000_0000,
        ;
        if sum_sq(a, n) == 0 {
            assert forall|i: int| 0 <= i < n implies a[i].0 == 0 by {
                if i < n - 1 {
                }
            }
        }
    }
}

/// No component is longer than the vector: its magnitude is at most the
/// floor of the root of the sum of squares.
pub proof fn lemma_component_in_length(a: Seq<Fixed>, n: int, i: int)
    requires
        0 <= i < n <= a.len(),
    ensures
        -floor_sqrt(sum_sq(a, n)) <= a[i].0 <= floor_sqrt(sum_sq(a, n)),
    decreases n,
{
    lemma_sum_sq_bounds(a, n);
    lemma_sum_sq_bounds(a, n - 1);
    let total: int = sum_sq(a, n);
    let root: int = floor_sqrt(total);
    lemma_floor_sqrt(total);
    let v: int = a[i].0 as int;
    assert(v * v <= total) by {
        if i < n - 1 {
            lemma_component_in_length(a, n - 1, i);
            let part: int = sum_sq(a, n - 1);
            lemma_floor_sqrt(part);
            let r: int = floor_sqrt(part);
            assert(v * v <= r * r) by (nonlinear_arith)
                requires
                    -r <= v <= r,
            ;
            let last: int = a[n - 1].0 as int;
            assert(0 <= last * last) by (nonlinear_arith);
        }
    }
    if v > root {
        assert(v * v >= (root + 1) * (root + 1)) by (nonlinear_arith)
            requires
                v >= root + 1,
                root >= 0,
        ;
    }
    if v < -root {
        assert(v * v >= (root + 1) * (root + 1)) by (nonlinear_arith)
            requires
                -v >= root + 1,
                root >= 0,
        ;
    }
}

/// A component divided by a length that is not less than it lies between
/// minus one and one; the least value of all, divided by the greatest, lies
/// one step below.
pub proof fn lemma_quotient_in_unit(v: int, len: int)
    requires
        len > 0,
        -len <= v <= len || (len == i32::MAX && v == i32::MIN),
    ensures
        -65537 <= Fixed::div_raw(v, len) <= 65536,
{
    let q: int = (v * 65536) / len;
    vstd::arithmetic::div_mod::lemma_fundamental_div_mod(v * 65536, len);
    assert(-65537 <= q <= 65536) by (nonlinear_arith)
        requires
            v * 65536 == len * q + (v * 65536) % len,
            0 <= (v * 65536) % len < len,
            len > 0,
            -len <= v <= len || (len >= 65536 && v == -len - 1),
    ;
}

impl<const N: usize> Vecf<N> {
    pub fn zero() -> (r: Self)
        ensures
            forall|i: int| 0 <= i < N ==> r.0[i].0 == 0,
    {
        Vector([Fixed(0); N])
    }

    pub fn one() -> (r: Self)
        ensures
            forall|i: int| 0 <= i < N ==> r.0[i].0 == 65536,
    {
        Vector([Fixed(65536); N])
    }

    /// The vector with one at `at` and zero elsewhere.
    pub fn one_one(at: usize) -> (r: Self)
        requires
            at < N,
        ensures
            forall|i: int| 0 <= i < N ==> r.0[i].0 == (if i == at { 65536i32 } else { 0i32 }),
    {
        let mut out: [Fixed; N] = [Fixed(0); N];
        out[at] = Fixed(65536);
        Vector(out)
    }

    /// The dot product of the vector with itself.
    pub fn len_sqr(&self) -> (r: Fixed)
        ensures
            r.0 == dot_raw(self.0@, self.0@, N as int),
    {
        self.dot(*self)
    }

    /// The length of the vector.
    pub fn len(&self) -> (r: Fixed)
        ensures
            r.0 == len_raw(self.0@),
            r.0 >= 0,
            r.0 == 0 <==> forall|i: int| 0 <= i < N ==> self.0[i].0 == 0,
    {
        let mut sum: u128 = 0;
        let mut i: usize = 0;
        while i < N
            invariant
                i <= N,
                sum == sum_sq(self.0@, i as int),
                sum <= i * 0x4000_0000_0000_0000,
            decreases N - i,
        {
            let v: i128 = self.0[i].0 as i128;
            let m: u128 = (if v < 0 { -v } else { v }) as u128;
            assert(m * m == v * v && m * m <= 0x4000_0000_0000_0000) by (nonlinear_arith)
                requires
                    m == v || m == -v,
                    0 <= m <= 0x8000_0000,
            ;
            sum = sum + m * m;
            i += 1;
        }
        let root: u128 = isqrt(sum);
        proof {
            lemma_sum_sq_bounds(self.0@, N as int);
            assert(root == 0 <==> sum == 0) by (nonlinear_arith)
                requires
                    0 <= root,
                    root * root <= sum < (root + 1) * (root + 1),
            ;
        }
        Fixed::from_wide(root as i128)
    }

    /// The vector of length one in the same direction: every component
    /// divided by the length.
    pub fn normalized(self) -> (r: Self)
        requires
            exists|i: int| 0 <= i < N && self.0[i].0 != 0,
        ensures
            len_raw(self.0@) != 0,
            forall|i: int|
                0 <= i < N ==> r.0[i].0 == Fixed::div_raw(self.0[i].0 as int, len_raw(self.0@)),
            forall|i: int| 0 <= i < N ==> -65537 <= #[trigger] r.0[i].0 <= 65536,
    {
        let len: Fixed = self.len();
        let r: Self = self.div(len);
        assert forall|i: int| 0 <= i < N implies -65537 <= #[trigger] r.0[i].0 <= 65536 by {
            lemma_component_in_length(self.0@, N as int, i);
            lemma_quotient_in_unit(self.0[i].0 as int, len.0 as int);
        }
        r
    }

    pub fn dot(&self, rhs: Self) -> (r: Fixed)
        ensures
            r.0 == dot_raw(self.0@, rhs.0@, N as int),
    {
        let mut sum: Fixed = Fixed(0);
        let mut i: usize = 0;
        while i < N
            invariant
                i <= N,
                sum.0 == dot_raw(self.0@, rhs.0@, i as int),
            decreases N - i,
        {
            sum = sum.add(self.0[i].mul(rhs.0[i]));
            i += 1;
        }
        sum
    }

    pub fn neg(self) -> (r: Self)
        ensures
            forall|i: int| 0 <= i < N ==> r.0[i].0 == saturate(-self.0[i].0),
    {
        let mut out: [Fixed; N] = [Fixed(0); N];
        let mut i: usize = 0;
        while i < N
            invariant
                i <= N,
                forall|j: int| 0 <= j < i ==> out[j].0 == saturate(-self.0[j].0),
            decreases N - i,
        {
            out[i] = self.0[i].neg();
            i += 1;
        }
        Vector(out)
    }

    pub fn add(self, rhs: Self) -> (r: Self)
        ensures
            forall|i: int|
                0 <= i < N ==> r.0[i].0 == Fixed::add_raw(self.0[i].0 as int, rhs.0[i].0 as int),
    {
        let mut out: [Fixed; N] = [Fixed(0); N];
        let mut i: usize = 0;
        while i < N
            invariant
                i <= N,
                forall|j: int|
                    0 <= j < i ==> out[j].0 == Fixed::add_raw(
                        self.0[j].0 as int,
                        rhs.0[j].0 as int,
                    ),
            decreases N - i,
        {
            out[i] = self.0[i].add(rhs.0[i]);
            i += 1;
        }
        Vector(out)
    }

    pub fn sub(self, rhs: Self) -> (r: Self)
        ensures
            forall|i: int|
                0 <= i < N ==> r.0[i].0 == Fixed::sub_raw(self.0[i].0 as int, rhs.0[i].0 as int),
    {
        let mut out: [Fixed; N] = [Fixed(0); N];
        let mut i: usize = 0;
        while i < N
            invariant
                i <= N,
                forall|j: int|
                    0 <= j < i ==> out[j].0 == Fixed::sub_raw(
                        self.0[j].0 as int,
                        rhs.0[j].0 as int,
                    ),
            decreases N - i,
        {
            out[i] = self.0[i].sub(rhs.0[i]);
            i += 1;
        }
        Vector(out)
    }

    /// Every component times `rhs`.
    pub fn mul(self, rhs: Fixed) -> (r: Self)
        ensures
            forall|i: int|
                0 <= i < N ==> r.0[i].0 == Fixed::mul_raw(self.0[i].0 as int, rhs.0 as int),
    {
        let mut out: [Fixed; N] = [Fixed(0); N];
        let mut i: usize = 0;
        while i < N
            invariant
                i <= N,
                forall|j: int|
                    0 <= j < i ==> out[j].0 == Fixed::mul_raw(self.0[j].0 as int, rhs.0 as int),
            decreases N - i,
        {
            out[i] = self.0[i].mul(rhs);
            i += 1;
        }
        Vector(out)
    }

    /// Every component divided by `rhs`.
    pub fn div(self, rhs: Fixed) -> (r: Self)
        requires
            rhs.0 != 0,
        ensures
            forall|i: int|
                0 <= i < N ==> r.0[i].0 == Fixed::div_raw(self.0[i].0 as int, rhs.0 as int),
    {
        let mut out: [Fixed; N] = [Fixed(0); N];
        let mut i: usize = 0;
        while i < N
            invariant
                i <= N,
                rhs.0 != 0,
                forall|j: int|
                    0 <= j < i ==> out[j].0 == Fixed::div_raw(self.0[j].0 as int, rhs.0 as int),
            decreases N - i,
        {
            out[i] = self.0[i].div(rhs);
            i += 1;
        }
        Vector(out)
    }
}

/// The value of the `i16` nearest to `v`.
pub open spec fn saturate_i16(v: int) -> int {
    if v < i16::MIN {
        i16::MIN as int
    } else if v > i16::MAX {
        i16::MAX as int
    } else {
        v
    }
}

impl Vec2f {
    /// The pixel of a point on a surface whose y axis points down and whose
    /// origin is at `(ox, oy)`: x rounded plus `ox`, minus y rounded plus
    /// `oy`.
    pub fn offset(&self, origin: (i16, i16)) -> (r: (i16, i16))
        requires
            i16::MIN <= saturate_i16(round_raw(self.0[0].0 as int)) + origin.0 <= i16::MAX,
            i16::MIN <= saturate_i16(-round_raw(self.0[1].0 as int)) + origin.1 <= i16::MAX,
        ensures
            r.0 == saturate_i16(round_raw(self.0[0].0 as int)) + origin.0,
            r.1 == saturate_i16(-round_raw(self.0[1].0 as int)) + origin.1,
    {
        let x: i32 = self.0[0].round();
        let y: i32 = -self.0[1].round();
        let sx: i16 = if x < -32768 { -32768 } else if x > 32767 { 32767 } else { x as i16 };
        let sy: i16 = if y < -32768 { -32768 } else if y > 32767 { 32767 } else { y as i16 };
        (sx + origin.0, sy + origin.1)
    }
}

/// The raw components of the cross product of two vectors given by their
/// raw components.
pub open spec fn cross_raw(a: (int, int, int), b: (int, int, int)) -> (int, int, int) {
    (
        Fixed::sub_raw(Fixed::mul_raw(a.1, b.2), Fixed::mul_raw(a.2, b.1)),
        Fixed::sub_raw(Fixed::mul_raw(a.2, b.0), Fixed::mul_raw(a.0, b.2)),
        Fixed::sub_raw(Fixed::mul_raw(a.0, b.1), Fixed::mul_raw(a.1, b.0)),
    )
}

impl Vec3f {
    /// The three raw components.
    pub open spec fn raws(self) -> (int, int, int) {
        (self.0[0].0 as int, self.0[1].0 as int, self.0[2].0 as int)
    }

    pub fn cross(&self, v: Self) -> (r: Self)
        ensures
            r.raws() == cross_raw(self.raws(), v.raws()),
    {
        Vector(
            [
                self.0[1].mul(v.0[2]).sub(self.0[2].mul(v.0[1])),
                self.0[2].mul(v.0[0]).sub(self.0[0].mul(v.0[2])),
                self.0[0].mul(v.0[1]).sub(self.0[1].mul(v.0[0])),
            ],
        )
    }
}

impl Vec4f {
    /// The perspective divide: x, y and z, each divided by w.
    pub fn div_w(&self) -> (r: Vec3f)
        requires
            self.0[3].0 != 0,
        ensures
            r.raws() == (
                Fixed::div_raw(self.0[0].0 as int, self.0[3].0 as int),
                Fixed::div_raw(self.0[1].0 as int, self.0[3].0 as int),
                Fixed::div_raw(self.0[2].0 as int, self.0[3].0 as int),
            ),
    {
        Vector([self.0[0].div(self.0[3]), self.0[1].div(self.0[3]), self.0[2].div(self.0[3])])
    }
}

} // verus!
