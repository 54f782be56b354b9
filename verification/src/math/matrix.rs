use crate::math::fixed::saturate;
use crate::math::fixed::Fixed;
use crate::math::vector::Vecf;
use crate::math::vector::Vector;
use vstd::prelude::*;

verus! {

/// `M` rows of `N` components each.
#[derive(Clone, Copy, Debug, PartialEq)]
pub struct Matrix<const M: usize, const N: usize>(pub [Vecf<N>; M]);

pub type Matx<const N: usize> = Matrix<N, N>;

pub type Mat2x2 = Matrix<2, 2>;

pub type Mat3x3 = Matrix<3, 3>;

pub type Mat4x4 = Matrix<4, 4>;

impl<const M: usize, const N: usize> Matrix<M, N> {
    /// The raw value of the component in row `i` and column `j`.
    pub open spec fn entry(self, i: int, j: int) -> int {
        self.0[i].0[j].0 as int
    }

    /// Whether `i` and `j` name a component.
    pub open spec fn has(i: int, j: int) -> bool {
        0 <= i < M && 0 <= j < N
    }

    pub fn from_rows(rows: [Vecf<N>; M]) -> (r: Self)
        ensures
            r.0 == rows,
    {
        Matrix(rows)
    }

    pub fn zero() -> (r: Self)
        ensures
            forall|i: int, j: int| Self::has(i, j) ==> r.entry(i, j) == 0,
    {
        Matrix([Vecf::<N>::zero(); M])
    }

    pub fn one() -> (r: Self)
        ensures
            forall|i: int, j: int| Self::has(i, j) ==> r.entry(i, j) == 65536,
    {
        Matrix([Vecf::<N>::one(); M])
    }

    /// The component in row `i` and column `j`.
    pub fn get(&self, i: usize, j: usize) -> (r: Fixed)
        requires
            i < M,
            j < N,
        ensures
            r.0 == self.entry(i as int, j as int),
    {
        self.0[i].0[j]
    }

    /// Row `i`.
    pub fn row(&self, i: usize) -> (r: Vecf<N>)
        requires
            i < M,
        ensures
            r == self.0[i as int],
    {
        self.0[i]
    }

    /// The matrix with rows and columns exchanged.
    pub fn transpose(&self) -> (r: Matrix<N, M>)
        ensures
            forall|i: int, j: int| Self::has(i, j) ==> r.entry(j, i) == self.entry(i, j),
    {
        let mut out: [Vecf<M>; N] = [Vecf::<M>::zero(); N];
        let mut y: usize = 0;
        while y < N
            invariant
                y <= N,
                forall|i: int, j: int|
                    0 <= i < M && 0 <= j < y ==> out[j].0[i].0 == self.entry(i, j),
            decreases N - y,
        {
            let mut column: [Fixed; M] = [Fixed(0); M];
            let mut x: usize = 0;
            while x < M
                invariant
                    x <= M,
                    y < N,
                    forall|i: int| 0 <= i < x ==> column[i].0 == self.entry(i, y as int),
                decreases M - x,
            {
                column[x] = self.0[x].0[y];
                x += 1;
            }
            out[y] = Vector(column);
            y += 1;
        }
        Matrix(out)
    }

    pub fn neg(self) -> (r: Self)
        ensures
            forall|i: int, j: int| Self::has(i, j) ==> r.entry(i, j) == saturate(-self.entry(i, j)),
    {
        let mut out: [Vecf<N>; M] = self.0;
        let mut i: usize = 0;
        while i < M
            invariant
                i <= M,
                forall|a: int, j: int|
                    0 <= a < i && 0 <= j < N ==> out[a].0[j].0 == saturate(-self.entry(a, j)),
            decreases M - i,
        {
            out[i] = self.0[i].neg();
            i += 1;
        }
        Matrix(out)
    }

    pub fn add(self, rhs: Self) -> (r: Self)
        ensures
            forall|i: int, j: int|
                Self::has(i, j) ==> r.entry(i, j) == Fixed::add_raw(
                    self.entry(i, j),
                    rhs.entry(i, j),
                ),
    {
        let mut out: [Vecf<N>; M] = self.0;
        let mut i: usize = 0;
        while i < M
            invariant
                i <= M,
                forall|a: int, j: int|
                    0 <= a < i && 0 <= j < N ==> out[a].0[j].0 == Fixed::add_raw(
                        self.entry(a, j),
                        rhs.entry(a, j),
                    ),
            decreases M - i,
        {
            out[i] = self.0[i].add(rhs.0[i]);
            i += 1;
        }
        Matrix(out)
    }

    pub fn sub(self, rhs: Self) -> (r: Self)
        ensures
            forall|i: int, j: int|
                Self::has(i, j) ==> r.entry(i, j) == Fixed::sub_raw(
                    self.entry(i, j),
                    rhs.entry(i, j),
                ),
    {
        let mut out: [Vecf<N>; M] = self.0;
        let mut i: usize = 0;
        while i < M
            invariant
                i <= M,
                forall|a: int, j: int|
                    0 <= a < i && 0 <= j < N ==> out[a].0[j].0 == Fixed::sub_raw(
                        self.entry(a, j),
                        rhs.entry(a, j),
                    ),
            decreases M - i,
        {
            out[i] = self.0[i].sub(rhs.0[i]);
            i += 1;
        }
        Matrix(out)
    }

    /// Every component times `rhs`.
    pub fn mul(self, rhs: Fixed) -> (r: Self)
        ensures
            forall|i: int, j: int|
                Self::has(i, j) ==> r.entry(i, j) == Fixed::mul_raw(self.entry(i, j), rhs.0 as int),
    {
        let mut out: [Vecf<N>; M] = self.0;
        let mut i: usize = 0;
        while i < M
            invariant
                i <= M,
                forall|a: int, j: int|
                    0 <= a < i && 0 <= j < N ==> out[a].0[j].0 == Fixed::mul_raw(
                        self.entry(a, j),
                        rhs.0 as int,
                    ),
            decreases M - i,
        {
            out[i] = self.0[i].mul(rhs);
            i += 1;
        }
        Matrix(out)
    }

    /// Every component divided by `rhs`.
    pub fn div(self, rhs: Fixed) -> (r: Self)
        requires
            rhs.0 != 0,
        ensures
            forall|i: int, j: int|
                Self::has(i, j) ==> r.entry(i, j) == Fixed::div_raw(self.entry(i, j), rhs.0 as int),
    {
        let mut out: [Vecf<N>; M] = self.0;
        let mut i: usize = 0;
        while i < M
            invariant
                i <= M,
                rhs.0 != 0,
                forall|a: int, j: int|
                    0 <= a < i && 0 <= j < N ==> out[a].0[j].0 == Fixed::div_raw(
                        self.entry(a, j),
                        rhs.0 as int,
                    ),
            decreases M - i,
        {
            out[i] = self.0[i].div(rhs);
            i += 1;
        }
        Matrix(out)
    }
}

impl<const N: usize> Matrix<1, N> {
    /// The matrix of one row that a vector is.
    pub fn from_vector(v: Vecf<N>) -> (r: Self)
        ensures
            r.0[0] == v,
    {
        Matrix([v])
    }

    /// The vector that a matrix of one row is.
    pub fn into_vector(self) -> (r: Vecf<N>)
        ensures
            r == self.0[0],
    {
        self.0[0]
    }
}

/// A vector made a matrix of one row and back is the vector, and a matrix of
/// one row made a vector and back is the matrix.
pub proof fn lemma_row_matrix_is_vector<const N: usize>(v: Vecf<N>, m: Matrix<1, N>)
    ensures
        Matrix::<1, N>([v]).0[0] == v,
        Matrix::<1, N>([m.0[0]]) == m,
{
    assert(Matrix::<1, N>([m.0[0]]).0 =~= m.0);
}

/// Exchanging rows and columns twice gives the matrix back.
pub proof fn lemma_transpose_twice<const M: usize, const N: usize>(
    m: Matrix<M, N>,
    t: Matrix<N, M>,
    tt: Matrix<M, N>,
)
    requires
        forall|i: int, j: int| Matrix::<M, N>::has(i, j) ==> t.entry(j, i) == m.entry(i, j),
        forall|i: int, j: int| Matrix::<N, M>::has(i, j) ==> tt.entry(j, i) == t.entry(i, j),
    ensures
        forall|i: int, j: int| Matrix::<M, N>::has(i, j) ==> tt.entry(i, j) == m.entry(i, j),
{
    assert forall|i: int, j: int| Matrix::<M, N>::has(i, j) implies tt.entry(i, j) == m.entry(
        i,
        j,
    ) by {
        assert(Matrix::<N, M>::has(j, i));
    }
}

} // verus!
