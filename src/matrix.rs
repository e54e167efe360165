//! Fixed-size matrices of scalars.
use vstd::prelude::*;
use vstd::string::StringExecFns;
use crate::scalar::{
    scalar_text, scalar_text_places, abs, checked_div_wide, div_raw, fits, mul_raw, wide_mul, Scalar, RAW_MAX, SCALE, WIDE_BOUND,
};

verus! {

broadcast use vstd::array::group_array_axioms;

/// The text of one entry: shortest, or rounded to `places` decimals and
/// signed when `plus`.
pub open spec fn entry_text(v: int, places: Option<nat>, plus: bool) -> Seq<char> {
    match places {
        Some(p) => scalar_text_places(v, p, plus),
        None => scalar_text(v),
    }
}

/// The first `k` entries of `row`, separated by `, `.
pub open spec fn row_text(row: Seq<int>, k: nat, places: Option<nat>, plus: bool) -> Seq<char>
    decreases k,
{
    if k == 0 {
        Seq::empty()
    } else if k == 1 {
        entry_text(row[0], places, plus)
    } else {
        row_text(row, (k - 1) as nat, places, plus) + ", "@ + entry_text(row[k - 1], places, plus)
    }
}

/// The first `k` rows of `m`, each in brackets, separated by a line break
/// and a space.
pub open spec fn rows_text(m: Seq<Seq<int>>, n: nat, k: nat, places: Option<nat>, plus: bool) -> Seq<
    char,
>
    decreases k,
{
    if k == 0 {
        Seq::empty()
    } else if k == 1 {
        "["@ + row_text(m[0], n, places, plus) + "]"@
    } else {
        rows_text(m, n, (k - 1) as nat, places, plus) + "\n ["@ + row_text(m[k - 1], n, places, plus)
            + "]"@
    }
}

/// Index `i` of a matrix with row or column `skip` taken out, as an index of
/// the full matrix.
pub open spec fn skip_index(i: int, skip: int) -> int {
    if i < skip {
        i
    } else {
        i + 1
    }
}

/// The `n - 1` by `n - 1` matrix left when row `r` and column `c` are taken
/// out of the `n` by `n` matrix `m`.
pub open spec fn submatrix(m: Seq<Seq<int>>, n: int, r: int, c: int) -> Seq<Seq<int>> {
    Seq::new(
        (n - 1) as nat,
        |i: int| Seq::new((n - 1) as nat, |j: int| m[skip_index(i, r)][skip_index(j, c)]),
    )
}

/// `1` for an even `r + c`, `-1` for an odd one.
pub open spec fn sign(r: int, c: int) -> int {
    if (r + c) % 2 == 0 {
        1
    } else {
        -1
    }
}

/// Determinant of a 2 by 2 matrix, each product rounded as scalars round it.
pub open spec fn det2(m: Seq<Seq<int>>) -> int {
    mul_raw(m[0][0], m[1][1]) - mul_raw(m[0][1], m[1][0])
}

pub open spec fn cofactor3(m: Seq<Seq<int>>, r: int, c: int) -> int {
    sign(r, c) * det2(submatrix(m, 3, r, c))
}

/// Determinant of a 3 by 3 matrix by cofactor expansion along the first row.
pub open spec fn det3(m: Seq<Seq<int>>) -> int {
    mul_raw(m[0][0], cofactor3(m, 0, 0)) + mul_raw(m[0][1], cofactor3(m, 0, 1)) + mul_raw(
        m[0][2],
        cofactor3(m, 0, 2),
    )
}

pub open spec fn cofactor4(m: Seq<Seq<int>>, r: int, c: int) -> int {
    sign(r, c) * det3(submatrix(m, 4, r, c))
}

/// Determinant of a 4 by 4 matrix by cofactor expansion along the first row.
pub open spec fn det4(m: Seq<Seq<int>>) -> int {
    mul_raw(m[0][0], cofactor4(m, 0, 0)) + mul_raw(m[0][1], cofactor4(m, 0, 1)) + mul_raw(
        m[0][2],
        cofactor4(m, 0, 2),
    ) + mul_raw(m[0][3], cofactor4(m, 0, 3))
}

/// The first `k` terms of the expansion of a 3 by 3 determinant along the
/// first row.
pub open spec fn expansion3(m: Seq<Seq<int>>, k: int) -> int
    decreases k,
{
    if k <= 0 {
        0
    } else {
        expansion3(m, k - 1) + mul_raw(m[0][k - 1], cofactor3(m, 0, k - 1))
    }
}

/// The first `k` terms of the expansion of a 4 by 4 determinant along the
/// first row.
pub open spec fn expansion4(m: Seq<Seq<int>>, k: int) -> int
    decreases k,
{
    if k <= 0 {
        0
    } else {
        expansion4(m, k - 1) + mul_raw(m[0][k - 1], cofactor4(m, 0, k - 1))
    }
}

/// The value the expansion of a cofactor of the `n` by `n` matrix `m`
/// computes is in range, with every value computed on the way.
pub open spec fn cofactor_in_range(m: Seq<Seq<int>>, n: int, r: int, c: int) -> bool {
    if n == 3 {
        fits(det2(submatrix(m, 3, r, c)))
    } else if n == 4 {
        det3_in_range(submatrix(m, 4, r, c))
    } else {
        true
    }
}

/// Every value the expansion of a 3 by 3 determinant computes is in range.
pub open spec fn det3_in_range(m: Seq<Seq<int>>) -> bool {
    &&& fits(det3(m))
    &&& forall|c: int| 0 <= c < 3 ==> fits(#[trigger] det2(submatrix(m, 3, 0, c)))
}

/// Every value the expansion of a 4 by 4 determinant computes is in range.
pub open spec fn det4_in_range(m: Seq<Seq<int>>) -> bool {
    &&& fits(det4(m))
    &&& forall|c: int| 0 <= c < 4 ==> det3_in_range(#[trigger] submatrix(m, 4, 0, c))
}

/// Every value the expansion of the determinant of the `n` by `n` matrix `m`
/// computes is in range.
pub open spec fn det_in_range(m: Seq<Seq<int>>, n: int) -> bool {
    if n == 2 {
        fits(det2(m))
    } else if n == 3 {
        det3_in_range(m)
    } else {
        det4_in_range(m)
    }
}

/// Every cofactor of the `n` by `n` matrix `m` is computed in range.
pub open spec fn cofactors_in_range(m: Seq<Seq<int>>, n: int) -> bool {
    forall|r: int, c: int| 0 <= r < n && 0 <= c < n ==> #[trigger] cofactor_in_range(m, n, r, c)
}

pub open spec fn cofactor2(m: Seq<Seq<int>>, r: int, c: int) -> int {
    sign(r, c) * m[1 - r][1 - c]
}

/// Cofactor at row `r`, column `c` of the `n` by `n` matrix `m`
/// (`2 <= n <= 4`).
pub open spec fn cofactor(m: Seq<Seq<int>>, n: int, r: int, c: int) -> int {
    if n == 2 {
        cofactor2(m, r, c)
    } else if n == 3 {
        cofactor3(m, r, c)
    } else {
        cofactor4(m, r, c)
    }
}

/// Determinant of the `n` by `n` matrix `m` (`2 <= n <= 4`).
pub open spec fn det_n(m: Seq<Seq<int>>, n: int) -> int {
    if n == 2 {
        det2(m)
    } else if n == 3 {
        det3(m)
    } else {
        det4(m)
    }
}

/// `inv` holds the transposed cofactors of the `n` by `n` matrix `m`, each
/// divided by the determinant of `m`.
pub open spec fn is_inverse_of(inv: Seq<Seq<int>>, m: Seq<Seq<int>>, n: int) -> bool {
    forall|i: int, j: int|
        0 <= i < n && 0 <= j < n ==> #[trigger] inv[i][j] == div_raw(cofactor(m, n, j, i), det_n(m, n))
}

/// Every transposed cofactor of `m` divided by its determinant is in range.
pub open spec fn quotients_fit(m: Seq<Seq<int>>, n: int) -> bool {
    forall|i: int, j: int|
        0 <= i < n && 0 <= j < n ==> fits(#[trigger] div_raw(cofactor(m, n, j, i), det_n(m, n)))
}

/// An `M` by `N` grid of scalars, row by row.
#[derive(Clone, Copy, Debug, PartialEq)]
pub struct Matrix<const M: usize, const N: usize> {
    pub data: [[Scalar; N]; M],
}

pub type Matrix2x2 = Matrix<2, 2>;

pub type Matrix3x3 = Matrix<3, 3>;

pub type Matrix4x4 = Matrix<4, 4>;

impl<const M: usize, const N: usize> Matrix<M, N> {
    pub open spec fn entry(&self, i: int, j: int) -> int {
        self.data@[i]@[j]@
    }

    /// The entries, row by row.
    pub open spec fn rows(&self) -> Seq<Seq<int>> {
        Seq::new(M as nat, |i: int| Seq::new(N as nat, |j: int| self.entry(i, j)))
    }

    /// Replaces the entry at row `i`, column `j`.
    pub fn set(&mut self, i: usize, j: usize, v: Scalar)
        requires
            i < M,
            j < N,
        ensures
            final(self).entry(i as int, j as int) == v@,
            forall|a: int, b: int|
                0 <= a < M && 0 <= b < N && (a != i || b != j) ==> #[trigger] final(self).entry(a, b)
                    == old(self).entry(a, b),
    {
        let mut row = self.data[i];
        row[j] = v;
        self.data[i] = row;
    }

    /// The entry at row `i`, column `j`.
    pub fn get(&self, i: usize, j: usize) -> (r: Scalar)
        requires
            i < M,
            j < N,
        ensures
            r@ == self.entry(i as int, j as int),
    {
        self.data[i][j]
    }

    /// The matrix with row `row` and column `col` taken out.
    pub fn submatrix<const K: usize, const L: usize>(&self, row: usize, col: usize) -> (r: Matrix<K, L>)
        requires
            K + 1 == M,
            L + 1 == N,
            M == N,
            row < M,
            col < N,
        ensures
            r.rows() == submatrix(self.rows(), M as int, row as int, col as int),
    {
        let mut out = Matrix::<K, L>::zeros();
        let mut i: usize = 0;
        while i < K
            invariant
                K + 1 == M,
                L + 1 == N,
                M == N,
                row < M,
                col < N,
                0 <= i <= K,
                forall|a: int, b: int|
                    0 <= a < i && 0 <= b < L ==> #[trigger] out.entry(a, b) == self.entry(
                        skip_index(a, row as int),
                        skip_index(b, col as int),
                    ),
            decreases K - i,
        {
            let src_i: usize = if i < row {
                i
            } else {
                i + 1
            };
            let mut j: usize = 0;
            while j < L
                invariant
                    K + 1 == M,
                    L + 1 == N,
                    M == N,
                    row < M,
                    col < N,
                    0 <= i < K,
                    0 <= j <= L,
                    src_i == skip_index(i as int, row as int),
                    forall|a: int, b: int|
                        0 <= a < i && 0 <= b < L ==> #[trigger] out.entry(a, b) == self.entry(
                            skip_index(a, row as int),
                            skip_index(b, col as int),
                        ),
                    forall|b: int|
                        0 <= b < j ==> #[trigger] out.entry(i as int, b) == self.entry(
                            src_i as int,
                            skip_index(b, col as int),
                        ),
                decreases L - j,
            {
                let src_j: usize = if j < col {
                    j
                } else {
                    j + 1
                };
                let v = self.get(src_i, src_j);
                out.set(i, j, v);
                j = j + 1;
            }
            i = i + 1;
        }
        assert(out.rows() =~~= submatrix(self.rows(), M as int, row as int, col as int));
        out
    }

    /// `[[a, b]\n [c, d]]`: rows in brackets, one per line; each entry
    /// shortest, or rounded to `places` decimals and signed when `plus`.
    fn text(&self, places: Option<u32>, plus: bool) -> (r: String)
        requires
            places matches Some(p) ==> p <= 9,
        ensures
            r@ == "["@ + rows_text(
                self.rows(),
                N as nat,
                M as nat,
                match places {
                    Some(p) => Some(p as nat),
                    None => None,
                },
                plus,
            ) + "]"@,
    {
        let ghost pl = match places {
            Some(p) => Some(p as nat),
            None => None,
        };
        proof {
            reveal_strlit("[");
            reveal_strlit("]");
            reveal_strlit(", ");
            reveal_strlit("\n [");
        }
        let mut s = String::from_str("[");
        let mut i: usize = 0;
        while i < M
            invariant
                0 <= i <= M,
                places matches Some(p) ==> p <= 9,
                pl == match places {
                    Some(p) => Some(p as nat),
                    None => None,
                },
                s@ == "["@ + rows_text(self.rows(), N as nat, i as nat, pl, plus),
            decreases M - i,
        {
            let ghost before = s@;
            if i == 0 {
                s.append("[");
            } else {
                s.append("\n [");
            }
            let ghost row_start = s@;
            let mut j: usize = 0;
            while j < N
                invariant
                    0 <= i < M,
                    0 <= j <= N,
                    places matches Some(p) ==> p <= 9,
                    pl == match places {
                        Some(p) => Some(p as nat),
                        None => None,
                    },
                    s@ == row_start + row_text(self.rows()[i as int], j as nat, pl, plus),
                decreases N - j,
            {
                if j > 0 {
                    s.append(", ");
                }
                let v = self.data[i][j];
                match places {
                    Some(p) => v.push_text_places(&mut s, p, plus),
                    None => v.push_text(&mut s),
                }
                assert(self.rows()[i as int][j as int] == v@);
                assert(s@ =~= row_start + row_text(self.rows()[i as int], (j + 1) as nat, pl, plus));
                j = j + 1;
            }
            s.append("]");
            assert(s@ =~= "["@ + rows_text(self.rows(), N as nat, (i + 1) as nat, pl, plus));
            i = i + 1;
        }
        s.append("]");
        s
    }

    /// `[[a, b]\n [c, d]]`, each entry as `Scalar::to_string` writes it.
    pub fn to_string(&self) -> (r: String)
        ensures
            r@ == "["@ + rows_text(self.rows(), N as nat, M as nat, None, false) + "]"@,
    {
        self.text(None, false)
    }

    /// `[[a, b]\n [c, d]]`, each entry rounded to `places` decimals and
    /// signed when `plus`.
    pub fn to_string_places(&self, places: u32, plus: bool) -> (r: String)
        requires
            places <= 9,
        ensures
            r@ == "["@ + rows_text(self.rows(), N as nat, M as nat, Some(places as nat), plus) + "]"@,
    {
        self.text(Some(places), plus)
    }

    /// The product `self * rhs`, or `None` when an entry of it is out of
    /// range.
    pub fn try_matmul<const P: usize>(&self, rhs: &Matrix<N, P>) -> (r: Option<Matrix<M, P>>)
        requires
            N < 0x4000_0000,
        ensures
            r is Some <==> product_fits(self.rows(), rhs.rows(), M as int, N as int, P as int),
            r matches Some(r) ==> forall|i: int, j: int|
                0 <= i < M && 0 <= j < P ==> #[trigger] r.entry(i, j) == product_prefix(
                    self.rows(),
                    rhs.rows(),
                    i,
                    j,
                    N as int,
                ),
    {
        let ghost a = self.rows();
        let ghost b = rhs.rows();
        let mut out = Matrix::<M, P>::zeros();
        let mut i: usize = 0;
        while i < M
            invariant
                a == self.rows(),
                b == rhs.rows(),
                N < 0x4000_0000,
                0 <= i <= M,
                forall|x: int, y: int|
                    0 <= x < i && 0 <= y < P ==> fits(#[trigger] product_prefix(a, b, x, y, N as int)),
                forall|x: int, y: int|
                    0 <= x < i && 0 <= y < P ==> #[trigger] out.entry(x, y) == product_prefix(
                        a,
                        b,
                        x,
                        y,
                        N as int,
                    ),
            decreases M - i,
        {
            let mut j: usize = 0;
            while j < P
                invariant
                    a == self.rows(),
                    b == rhs.rows(),
                    N < 0x4000_0000,
                        0 <= i < M,
                    0 <= j <= P,
                    forall|x: int, y: int|
                        0 <= x < i && 0 <= y < P ==> fits(#[trigger] product_prefix(a, b, x, y, N as int)),
                    forall|y: int| 0 <= y < j ==> fits(#[trigger] product_prefix(a, b, i as int, y, N as int)),
                    forall|x: int, y: int|
                        0 <= x < i && 0 <= y < P ==> #[trigger] out.entry(x, y) == product_prefix(
                            a,
                            b,
                            x,
                            y,
                            N as int,
                        ),
                    forall|y: int|
                        0 <= y < j ==> #[trigger] out.entry(i as int, y) == product_prefix(
                            a,
                            b,
                            i as int,
                            y,
                            N as int,
                        ),
                decreases P - j,
            {
                let mut sum: i128 = 0;
                let mut k: usize = 0;
                while k < N
                    invariant
                        a == self.rows(),
                        b == rhs.rows(),
                        N < 0x4000_0000,
                        0 <= i < M,
                        0 <= j < P,
                        0 <= k <= N,
                        sum == product_prefix(a, b, i as int, j as int, k as int),
                        abs(sum as int) <= k * WIDE_BOUND,
                    decreases N - k,
                {
                    let t = wide_mul(self.data[i][k], rhs.data[k][j]);
                    assert(a[i as int][k as int] == self.data[i as int][k as int]@);
                    assert(b[k as int][j as int] == rhs.data[k as int][j as int]@);
                    sum = sum + t;
                    k = k + 1;
                }
                if sum < -(RAW_MAX as i128) || sum > RAW_MAX as i128 {
                    assert(!fits(product_prefix(a, b, i as int, j as int, N as int)));
                    return None;
                }
                out.set(i, j, Scalar::from_raw(sum as i64));
                j = j + 1;
            }
            i = i + 1;
        }
        assert(product_fits(a, b, M as int, N as int, P as int));
        Some(out)
    }

    /// The product `self * rhs`.
    pub fn matmul<const P: usize>(&self, rhs: &Matrix<N, P>) -> (r: Matrix<M, P>)
        requires
            N < 0x4000_0000,
            product_fits(self.rows(), rhs.rows(), M as int, N as int, P as int),
        ensures
            forall|i: int, j: int|
                0 <= i < M && 0 <= j < P ==> #[trigger] r.entry(i, j) == product_prefix(
                    self.rows(),
                    rhs.rows(),
                    i,
                    j,
                    N as int,
                ),
    {
        match self.try_matmul(rhs) {
            Some(r) => r,
            None => Matrix::zeros(),
        }
    }

    /// Every entry `v`.
    pub fn filled(v: Scalar) -> (r: Matrix<M, N>)
        ensures
            forall|i: int, j: int| 0 <= i < M && 0 <= j < N ==> #[trigger] r.entry(i, j) == v@,
    {
        let row: [Scalar; N] = [v; N];
        let data: [[Scalar; N]; M] = [row; M];
        let r = Matrix { data };
        proof {
            vstd::array::axiom_spec_array_fill_for_copy_type::<Scalar, N>(v);
            vstd::array::axiom_spec_array_fill_for_copy_type::<[Scalar; N], M>(row);
        }
        assert forall|i: int, j: int| 0 <= i < M && 0 <= j < N implies #[trigger] r.entry(i, j) == v@ by {
            assert(data@[i] == row);
            assert(row@[j] == v);
        }
        r
    }

    pub fn ones() -> (r: Matrix<M, N>)
        ensures
            forall|i: int, j: int| 0 <= i < M && 0 <= j < N ==> #[trigger] r.entry(i, j) == SCALE,
            M == N ==> r.rows() == ones_rows(M as int),
    {
        let r = Matrix::filled(Scalar::one());
        assert(M == N ==> r.rows() =~~= ones_rows(M as int));
        r
    }

    pub fn new(data: [[Scalar; N]; M]) -> (r: Matrix<M, N>)
        ensures
            r.data == data,
    {
        Matrix { data }
    }

    pub fn zeros() -> (r: Matrix<M, N>)
        ensures
            forall|i: int, j: int| 0 <= i < M && 0 <= j < N ==> #[trigger] r.entry(i, j) == 0,
    {
        Matrix::filled(Scalar::zero())
    }

    pub fn transpose(&self) -> (r: Matrix<N, M>)
        ensures
            forall|i: int, j: int| 0 <= i < N && 0 <= j < M ==> #[trigger] r.entry(i, j) == self.entry(j, i),
    {
        let mut t = Matrix::<N, M>::zeros();
        let mut i: usize = 0;
        while i < M
            invariant
                0 <= i <= M,
                forall|a: int, b: int| 0 <= a < N && 0 <= b < i ==> #[trigger] t.entry(a, b) == self.entry(b, a),
            decreases M - i,
        {
            let mut j: usize = 0;
            while j < N
                invariant
                    0 <= i < M,
                    0 <= j <= N,
                    forall|a: int, b: int| 0 <= a < N && 0 <= b < i ==> #[trigger] t.entry(a, b) == self.entry(b, a),
                    forall|a: int| 0 <= a < j ==> #[trigger] t.entry(a, i as int) == self.entry(i as int, a),
                decreases N - j,
            {
                let v = self.data[i][j];
                t.set(j, i, v);
                j = j + 1;
            }
            i = i + 1;
        }
        t
    }
}

/// Entry (`i`, `j`) of the product of `a` and `b`, summed over the first `k`
/// terms, each product rounded as scalars round it.
pub open spec fn product_prefix(a: Seq<Seq<int>>, b: Seq<Seq<int>>, i: int, j: int, k: int) -> int
    decreases k,
{
    if k <= 0 {
        0
    } else {
        product_prefix(a, b, i, j, k - 1) + mul_raw(a[i][k - 1], b[k - 1][j])
    }
}

/// Every entry of the product of the `m` by `n` matrix `a` and the `n` by
/// `p` matrix `b` is in range.
pub open spec fn product_fits(a: Seq<Seq<int>>, b: Seq<Seq<int>>, m: int, n: int, p: int) -> bool {
    forall|i: int, j: int| 0 <= i < m && 0 <= j < p ==> fits(#[trigger] product_prefix(a, b, i, j, n))
}

impl<const N: usize> Matrix<N, N> {
    pub fn identity() -> (r: Matrix<N, N>)
        ensures
            r.rows() == identity_rows(N as int),
            forall|i: int, j: int|
                0 <= i < N && 0 <= j < N ==> #[trigger] r.entry(i, j) == if i == j {
                    SCALE as int
                } else {
                    0
                },
    {
        let mut m = Matrix::<N, N>::zeros();
        let mut i: usize = 0;
        while i < N
            invariant
                0 <= i <= N,
                forall|a: int, b: int|
                    0 <= a < N && 0 <= b < N ==> #[trigger] m.entry(a, b) == if a == b && a < i {
                        SCALE as int
                    } else {
                        0
                    },
            decreases N - i,
        {
            m.set(i, i, Scalar::one());
            i = i + 1;
        }
        assert(m.rows() =~~= identity_rows(N as int));
        m
    }
}

/// Rows of the 4 by 4 matrix with rows `r0` to `r3`.
pub open spec fn rows4(r0: Seq<int>, r1: Seq<int>, r2: Seq<int>, r3: Seq<int>) -> Seq<Seq<int>> {
    seq![r0, r1, r2, r3]
}

pub open spec fn translation_rows(x: int, y: int, z: int) -> Seq<Seq<int>> {
    let s = SCALE as int;
    rows4(seq![s, 0, 0, x], seq![0, s, 0, y], seq![0, 0, s, z], seq![0, 0, 0, s])
}

pub open spec fn scaling_rows(x: int, y: int, z: int) -> Seq<Seq<int>> {
    let s = SCALE as int;
    rows4(seq![x, 0, 0, 0], seq![0, y, 0, 0], seq![0, 0, z, 0], seq![0, 0, 0, s])
}

pub open spec fn rotation_x_rows(sin: int, cos: int) -> Seq<Seq<int>> {
    let s = SCALE as int;
    rows4(seq![s, 0, 0, 0], seq![0, cos, -sin, 0], seq![0, sin, cos, 0], seq![0, 0, 0, s])
}

pub open spec fn rotation_y_rows(sin: int, cos: int) -> Seq<Seq<int>> {
    let s = SCALE as int;
    rows4(seq![cos, 0, sin, 0], seq![0, s, 0, 0], seq![-sin, 0, cos, 0], seq![0, 0, 0, s])
}

pub open spec fn rotation_z_rows(sin: int, cos: int) -> Seq<Seq<int>> {
    let s = SCALE as int;
    rows4(seq![cos, -sin, 0, 0], seq![sin, cos, 0, 0], seq![0, 0, s, 0], seq![0, 0, 0, s])
}

pub open spec fn shearing_rows(xy: int, xz: int, yx: int, yz: int, zx: int, zy: int) -> Seq<
    Seq<int>,
> {
    let s = SCALE as int;
    rows4(seq![s, xy, xz, 0], seq![yx, s, yz, 0], seq![zx, zy, s, 0], seq![0, 0, 0, s])
}

impl Matrix<4, 4> {
    /// Builds a matrix from rows given as spec sequences.
    fn from_rows(r: [[Scalar; 4]; 4]) -> (m: Matrix<4, 4>)
        ensures
            m.rows() == rows4(
                seq![r[0][0]@, r[0][1]@, r[0][2]@, r[0][3]@],
                seq![r[1][0]@, r[1][1]@, r[1][2]@, r[1][3]@],
                seq![r[2][0]@, r[2][1]@, r[2][2]@, r[2][3]@],
                seq![r[3][0]@, r[3][1]@, r[3][2]@, r[3][3]@],
            ),
    {
        let m = Matrix { data: r };
        assert(m.rows() =~~= rows4(
            seq![r[0][0]@, r[0][1]@, r[0][2]@, r[0][3]@],
            seq![r[1][0]@, r[1][1]@, r[1][2]@, r[1][3]@],
            seq![r[2][0]@, r[2][1]@, r[2][2]@, r[2][3]@],
            seq![r[3][0]@, r[3][1]@, r[3][2]@, r[3][3]@],
        ));
        m
    }

    /// Moves points by (`x`, `y`, `z`); leaves vectors as they are.
    pub fn translation(x: Scalar, y: Scalar, z: Scalar) -> (r: Matrix<4, 4>)
        ensures
            r.rows() == translation_rows(x@, y@, z@),
    {
        let o = Scalar::one();
        let n = Scalar::zero();
        Matrix::from_rows([[o, n, n, x], [n, o, n, y], [n, n, o, z], [n, n, n, o]])
    }

    /// Scales each axis by its factor.
    pub fn scaling(x: Scalar, y: Scalar, z: Scalar) -> (r: Matrix<4, 4>)
        ensures
            r.rows() == scaling_rows(x@, y@, z@),
    {
        let o = Scalar::one();
        let n = Scalar::zero();
        Matrix::from_rows([[x, n, n, n], [n, y, n, n], [n, n, z, n], [n, n, n, o]])
    }

    /// Rotation about the x axis by the angle whose sine and cosine are given.
    pub fn rotation_x(sin: Scalar, cos: Scalar) -> (r: Matrix<4, 4>)
        requires
            fits(sin@),
        ensures
            r.rows() == rotation_x_rows(sin@, cos@),
    {
        let o = Scalar::one();
        let n = Scalar::zero();
        let m = sin.neg();
        Matrix::from_rows([[o, n, n, n], [n, cos, m, n], [n, sin, cos, n], [n, n, n, o]])
    }

    /// Rotation about the y axis by the angle whose sine and cosine are given.
    pub fn rotation_y(sin: Scalar, cos: Scalar) -> (r: Matrix<4, 4>)
        requires
            fits(sin@),
        ensures
            r.rows() == rotation_y_rows(sin@, cos@),
    {
        let o = Scalar::one();
        let n = Scalar::zero();
        let m = sin.neg();
        Matrix::from_rows([[cos, n, sin, n], [n, o, n, n], [m, n, cos, n], [n, n, n, o]])
    }

    /// Rotation about the z axis by the angle whose sine and cosine are given.
    pub fn rotation_z(sin: Scalar, cos: Scalar) -> (r: Matrix<4, 4>)
        requires
            fits(sin@),
        ensures
            r.rows() == rotation_z_rows(sin@, cos@),
    {
        let o = Scalar::one();
        let n = Scalar::zero();
        let m = sin.neg();
        Matrix::from_rows([[cos, m, n, n], [sin, cos, n, n], [n, n, o, n], [n, n, n, o]])
    }

    /// Shearing: each coordinate moves in proportion to the other two.
    pub fn shearing(xy: Scalar, xz: Scalar, yx: Scalar, yz: Scalar, zx: Scalar, zy: Scalar) -> (r:
        Matrix<4, 4>)
        ensures
            r.rows() == shearing_rows(xy@, xz@, yx@, yz@, zx@, zy@),
    {
        let o = Scalar::one();
        let n = Scalar::zero();
        Matrix::from_rows([[o, xy, xz, n], [yx, o, yz, n], [zx, zy, o, n], [n, n, n, o]])
    }
}

/// Row-major index `k` of an `n`-column matrix names exactly one row and
/// column.
proof fn lemma_index_split(k: int, n: int)
    requires
        0 <= k,
        0 < n,
    ensures
        k == (k / n) * n + k % n,
        0 <= k % n < n,
        forall|a: int, b: int|
            0 <= b < n && #[trigger] (a * n + b) == k ==> a == k / n && b == k % n,
        forall|a: int, b: int|
            0 <= b < n && 0 <= a && #[trigger] (a * n + b) < k ==> a * n + b != (k / n) * n + k % n,
{
    vstd::arithmetic::div_mod::lemma_fundamental_div_mod(k, n);
    vstd::arithmetic::div_mod::lemma_mod_pos_bound(k, n);
    assert(n * (k / n) == (k / n) * n) by (nonlinear_arith);
    assert forall|a: int, b: int| 0 <= b < n && #[trigger] (a * n + b) == k implies a == k / n && b == k % n by {
        vstd::arithmetic::div_mod::lemma_fundamental_div_mod_converse(k, n, a, b);
    }
}

/// The raw `i128` value as a scalar, when it is in range.
fn narrow_checked(v: i128) -> (r: Option<Scalar>)
    ensures
        r is Some <==> fits(v as int),
        r matches Some(s) ==> s@ == v,
{
    if -(RAW_MAX as i128) <= v && v <= RAW_MAX as i128 {
        Some(Scalar::from_raw(v as i64))
    } else {
        None
    }
}

impl Matrix<2, 2> {
    /// The determinant, or `None` when it is out of range.
    pub fn try_determinant(&self) -> (r: Option<Scalar>)
        ensures
            r is Some <==> fits(det2(self.rows())),
            r matches Some(d) ==> d@ == det2(self.rows()),
    {
        let d: i128 = wide_mul(self.data[0][0], self.data[1][1]) - wide_mul(
            self.data[0][1],
            self.data[1][0],
        );
        narrow_checked(d)
    }

    pub fn determinant(&self) -> (r: Scalar)
        requires
            fits(det2(self.rows())),
        ensures
            r@ == det2(self.rows()),
    {
        match self.try_determinant() {
            Some(d) => d,
            None => Scalar::zero(),
        }
    }

    /// The inverse: `None` when the determinant is zero, or when it or an
    /// entry of the inverse is out of range.
    pub fn inverse(&self) -> (r: Option<Matrix<2, 2>>)
        ensures
            r is Some <==> fits(det2(self.rows())) && det2(self.rows()) != 0 && quotients_fit(
                self.rows(),
                2,
            ),
            r matches Some(inv) ==> is_inverse_of(inv.rows(), self.rows(), 2),
    {
        let ghost m = self.rows();
        let det = match self.try_determinant() {
            Some(d) => d,
            None => return None,
        };
        if det.raw == 0 {
            return None;
        }
        let a = self.data[0][0];
        let b = self.data[0][1];
        let c = self.data[1][0];
        let d = self.data[1][1];
        assert(m[0][0] == a@ && m[0][1] == b@ && m[1][0] == c@ && m[1][1] == d@);
        assert(sign(0, 0) == 1 && sign(0, 1) == -1 && sign(1, 0) == -1 && sign(1, 1) == 1);
        let i00 = match d.checked_div(det) {
            Some(v) => v,
            None => {
                assert(!fits(div_raw(cofactor(m, 2, 0, 0), det_n(m, 2))));
                return None;
            },
        };
        let i01 = match checked_div_wide(-(b.raw as i128), det) {
            Some(v) => v,
            None => {
                assert(!fits(div_raw(cofactor(m, 2, 1, 0), det_n(m, 2))));
                return None;
            },
        };
        let i10 = match checked_div_wide(-(c.raw as i128), det) {
            Some(v) => v,
            None => {
                assert(!fits(div_raw(cofactor(m, 2, 0, 1), det_n(m, 2))));
                return None;
            },
        };
        let i11 = match a.checked_div(det) {
            Some(v) => v,
            None => {
                assert(!fits(div_raw(cofactor(m, 2, 1, 1), det_n(m, 2))));
                return None;
            },
        };
        let mut inv = Matrix::<2, 2>::zeros();
        inv.set(0, 0, i00);
        inv.set(0, 1, i01);
        inv.set(1, 0, i10);
        inv.set(1, 1, i11);
        assert forall|i: int, j: int| 0 <= i < 2 && 0 <= j < 2 implies #[trigger] inv.rows()[i][j]
            == div_raw(cofactor(m, 2, j, i), det_n(m, 2)) by {
            assert(inv.rows()[i][j] == inv.entry(i, j));
        }
        assert forall|i: int, j: int| 0 <= i < 2 && 0 <= j < 2 implies fits(
            #[trigger] div_raw(cofactor(m, 2, j, i), det_n(m, 2)),
        ) by {
            if i == 0 && j == 0 {
                assert(fits(div_raw(cofactor(m, 2, 0, 0), det_n(m, 2))));
            } else if i == 0 {
                assert(fits(div_raw(cofactor(m, 2, 1, 0), det_n(m, 2))));
            } else if j == 0 {
                assert(fits(div_raw(cofactor(m, 2, 0, 1), det_n(m, 2))));
            } else {
                assert(fits(div_raw(cofactor(m, 2, 1, 1), det_n(m, 2))));
            }
        }
        Some(inv)
    }
}

impl Matrix<3, 3> {
    /// The cofactor at row `row`, column `col`, or `None` when a value
    /// computed on the way is out of range.
    pub fn try_cofactor(&self, row: usize, col: usize) -> (r: Option<Scalar>)
        requires
            row < 3,
            col < 3,
        ensures
            r is Some <==> cofactor_in_range(self.rows(), 3, row as int, col as int),
            r matches Some(v) ==> v@ == cofactor(self.rows(), 3, row as int, col as int),
    {
        let sub = self.submatrix::<2, 2>(row, col);
        let d = match sub.try_determinant() {
            Some(d) => d,
            None => return None,
        };
        if (row + col) % 2 == 0 {
            Some(d)
        } else {
            Some(d.neg())
        }
    }

    /// The determinant, or `None` when a value computed on the way is out
    /// of range.
    pub fn try_determinant(&self) -> (r: Option<Scalar>)
        ensures
            r is Some <==> det_in_range(self.rows(), 3),
            r matches Some(d) ==> d@ == det_n(self.rows(), 3),
    {
        let ghost m = self.rows();
        let mut sum: i128 = 0;
        let mut c: usize = 0;
        while c < 3
            invariant
                m == self.rows(),
                0 <= c <= 3,
                forall|j: int| 0 <= j < c ==> #[trigger] cofactor_in_range(m, 3, 0, j),
                sum == expansion3(m, c as int),
                abs(sum as int) <= c * WIDE_BOUND,
            decreases 3 - c,
        {
            let cof = match self.try_cofactor(0, c) {
                Some(v) => v,
                None => {
                    assert(!cofactor_in_range(m, 3, 0, c as int));
                    return None;
                },
            };
            let t = wide_mul(self.data[0][c], cof);
            assert(m[0][c as int] == self.data[0][c as int]@);
            sum = sum + t;
            c = c + 1;
        }
        proof {
            reveal_with_fuel(expansion3, 4);
            assert(expansion3(m, 3) == det3(m));
            assert forall|j: int| 0 <= j < 3 implies fits(det2(submatrix(m, 3, 0, j))) by {
                assert(cofactor_in_range(m, 3, 0, j));
            }
        }
        narrow_checked(sum)
    }

    pub fn determinant(&self) -> (r: Scalar)
        requires
            det_in_range(self.rows(), 3),
        ensures
            r@ == det_n(self.rows(), 3),
    {
        match self.try_determinant() {
            Some(d) => d,
            None => Scalar::zero(),
        }
    }

    /// The inverse: `None` when the determinant is zero, or when a value
    /// computed on the way or an entry of the inverse is out of range.
    pub fn inverse(&self) -> (r: Option<Matrix<3, 3>>)
        ensures
            r is Some <==> det_in_range(self.rows(), 3) && det_n(self.rows(), 3) != 0
                && cofactors_in_range(self.rows(), 3) && quotients_fit(self.rows(), 3),
            r matches Some(inv) ==> is_inverse_of(inv.rows(), self.rows(), 3),
    {
        let ghost m = self.rows();
        let det = match self.try_determinant() {
            Some(d) => d,
            None => return None,
        };
        if det.raw == 0 {
            return None;
        }
        let mut out = Matrix::<3, 3>::zeros();
        let mut k: usize = 0;
        while k < 3 * 3
            invariant
                m == self.rows(),
                det@ == det_n(m, 3),
                det@ != 0,
                0 <= k <= 3 * 3,
                forall|a: int, b: int|
                    0 <= a < 3 && 0 <= b < 3 && a * 3 + b < k ==> #[trigger] cofactor_in_range(m, 3, a, b)
                        && fits(div_raw(cofactor(m, 3, a, b), det@)) && out.entry(b, a) == div_raw(
                        cofactor(m, 3, a, b),
                        det@,
                    ),
            decreases 3 * 3 - k,
        {
            let row: usize = k / 3;
            let col: usize = k % 3;
            proof {
                lemma_index_split(k as int, 3);
            }
            let cof = match self.try_cofactor(row, col) {
                Some(v) => v,
                None => {
                    assert(!cofactor_in_range(m, 3, row as int, col as int));
                    return None;
                },
            };
            let q = match cof.checked_div(det) {
                Some(v) => v,
                None => {
                    assert(!fits(div_raw(cofactor(m, 3, row as int, col as int), det_n(m, 3))));
                    return None;
                },
            };
            let ghost before = out;
            out.set(col, row, q);
            proof {
                assert forall|a: int, b: int|
                    0 <= a < 3 && 0 <= b < 3 && a * 3 + b < k + 1 implies #[trigger] cofactor_in_range(
                    m,
                    3,
                    a,
                    b,
                ) && fits(div_raw(cofactor(m, 3, a, b), det@)) && out.entry(b, a) == div_raw(
                    cofactor(m, 3, a, b),
                    det@,
                ) by {
                    if a * 3 + b < k {
                        assert(cofactor_in_range(m, 3, a, b));
                        assert(before.entry(b, a) == div_raw(cofactor(m, 3, a, b), det@));
                        assert(a * 3 + b != (k / 3) * 3 + k % 3);
                    } else {
                        assert(a * 3 + b == k);
                    }
                }
            }
            k = k + 1;
        }
        assert(cofactors_in_range(m, 3)) by {
            assert forall|a: int, b: int| 0 <= a < 3 && 0 <= b < 3 implies #[trigger] cofactor_in_range(m, 3, a, b) by {
                assert(a * 3 + b < 3 * 3) by (nonlinear_arith)
                    requires
                        0 <= a < 3,
                        0 <= b < 3,
                ;
            }
        }
        assert(quotients_fit(m, 3) && is_inverse_of(out.rows(), m, 3)) by {
            assert forall|i: int, j: int| 0 <= i < 3 && 0 <= j < 3 implies fits(
                #[trigger] div_raw(cofactor(m, 3, j, i), det_n(m, 3)),
            ) && out.rows()[i][j] == div_raw(cofactor(m, 3, j, i), det_n(m, 3)) by {
                assert(j * 3 + i < 3 * 3) by (nonlinear_arith)
                    requires
                        0 <= i < 3,
                        0 <= j < 3,
                ;
                assert(cofactor_in_range(m, 3, j, i));
            }
        }
        Some(out)
    }
}

impl Matrix<4, 4> {
    /// The cofactor at row `row`, column `col`, or `None` when a value
    /// computed on the way is out of range.
    pub fn try_cofactor(&self, row: usize, col: usize) -> (r: Option<Scalar>)
        requires
            row < 4,
            col < 4,
        ensures
            r is Some <==> cofactor_in_range(self.rows(), 4, row as int, col as int),
            r matches Some(v) ==> v@ == cofactor(self.rows(), 4, row as int, col as int),
    {
        let sub = self.submatrix::<3, 3>(row, col);
        let d = match sub.try_determinant() {
            Some(d) => d,
            None => return None,
        };
        if (row + col) % 2 == 0 {
            Some(d)
        } else {
            Some(d.neg())
        }
    }

    /// The determinant, or `None` when a value computed on the way is out
    /// of range.
    pub fn try_determinant(&self) -> (r: Option<Scalar>)
        ensures
            r is Some <==> det_in_range(self.rows(), 4),
            r matches Some(d) ==> d@ == det_n(self.rows(), 4),
    {
        let ghost m = self.rows();
        let mut sum: i128 = 0;
        let mut c: usize = 0;
        while c < 4
            invariant
                m == self.rows(),
                0 <= c <= 4,
                forall|j: int| 0 <= j < c ==> #[trigger] cofactor_in_range(m, 4, 0, j),
                sum == expansion4(m, c as int),
                abs(sum as int) <= c * WIDE_BOUND,
            decreases 4 - c,
        {
            let cof = match self.try_cofactor(0, c) {
                Some(v) => v,
                None => {
                    assert(!cofactor_in_range(m, 4, 0, c as int));
                    return None;
                },
            };
            let t = wide_mul(self.data[0][c], cof);
            assert(m[0][c as int] == self.data[0][c as int]@);
            sum = sum + t;
            c = c + 1;
        }
        proof {
            reveal_with_fuel(expansion4, 5);
            assert(expansion4(m, 4) == det4(m));
            assert forall|j: int| 0 <= j < 4 implies det3_in_range(submatrix(m, 4, 0, j)) by {
                assert(cofactor_in_range(m, 4, 0, j));
            }
        }
        narrow_checked(sum)
    }

    pub fn determinant(&self) -> (r: Scalar)
        requires
            det_in_range(self.rows(), 4),
        ensures
            r@ == det_n(self.rows(), 4),
    {
        match self.try_determinant() {
            Some(d) => d,
            None => Scalar::zero(),
        }
    }

    /// The inverse: `None` when the determinant is zero, or when a value
    /// computed on the way or an entry of the inverse is out of range.
    pub fn inverse(&self) -> (r: Option<Matrix<4, 4>>)
        ensures
            r is Some <==> det_in_range(self.rows(), 4) && det_n(self.rows(), 4) != 0
                && cofactors_in_range(self.rows(), 4) && quotients_fit(self.rows(), 4),
            r matches Some(inv) ==> is_inverse_of(inv.rows(), self.rows(), 4),
    {
        let ghost m = self.rows();
        let det = match self.try_determinant() {
            Some(d) => d,
            None => return None,
        };
        if det.raw == 0 {
            return None;
        }
        let mut out = Matrix::<4, 4>::zeros();
        let mut k: usize = 0;
        while k < 4 * 4
            invariant
                m == self.rows(),
                det@ == det_n(m, 4),
                det@ != 0,
                0 <= k <= 4 * 4,
                forall|a: int, b: int|
                    0 <= a < 4 && 0 <= b < 4 && a * 4 + b < k ==> #[trigger] cofactor_in_range(m, 4, a, b)
                        && fits(div_raw(cofactor(m, 4, a, b), det@)) && out.entry(b, a) == div_raw(
                        cofactor(m, 4, a, b),
                        det@,
                    ),
            decreases 4 * 4 - k,
        {
            let row: usize = k / 4;
            let col: usize = k % 4;
            proof {
                lemma_index_split(k as int, 4);
            }
            let cof = match self.try_cofactor(row, col) {
                Some(v) => v,
                None => {
                    assert(!cofactor_in_range(m, 4, row as int, col as int));
                    return None;
                },
            };
            let q = match cof.checked_div(det) {
                Some(v) => v,
                None => {
                    assert(!fits(div_raw(cofactor(m, 4, row as int, col as int), det_n(m, 4))));
                    return None;
                },
            };
            let ghost before = out;
            out.set(col, row, q);
            proof {
                assert forall|a: int, b: int|
                    0 <= a < 4 && 0 <= b < 4 && a * 4 + b < k + 1 implies #[trigger] cofactor_in_range(
                    m,
                    4,
                    a,
                    b,
                ) && fits(div_raw(cofactor(m, 4, a, b), det@)) && out.entry(b, a) == div_raw(
                    cofactor(m, 4, a, b),
                    det@,
                ) by {
                    if a * 4 + b < k {
                        assert(cofactor_in_range(m, 4, a, b));
                        assert(before.entry(b, a) == div_raw(cofactor(m, 4, a, b), det@));
                        assert(a * 4 + b != (k / 4) * 4 + k % 4);
                    } else {
                        assert(a * 4 + b == k);
                    }
                }
            }
            k = k + 1;
        }
        assert(cofactors_in_range(m, 4)) by {
            assert forall|a: int, b: int| 0 <= a < 4 && 0 <= b < 4 implies #[trigger] cofactor_in_range(m, 4, a, b) by {
                assert(a * 4 + b < 4 * 4) by (nonlinear_arith)
                    requires
                        0 <= a < 4,
                        0 <= b < 4,
                ;
            }
        }
        assert(quotients_fit(m, 4) && is_inverse_of(out.rows(), m, 4)) by {
            assert forall|i: int, j: int| 0 <= i < 4 && 0 <= j < 4 implies fits(
                #[trigger] div_raw(cofactor(m, 4, j, i), det_n(m, 4)),
            ) && out.rows()[i][j] == div_raw(cofactor(m, 4, j, i), det_n(m, 4)) by {
                assert(j * 4 + i < 4 * 4) by (nonlinear_arith)
                    requires
                        0 <= i < 4,
                        0 <= j < 4,
                ;
                assert(cofactor_in_range(m, 4, j, i));
            }
        }
        Some(out)
    }
}

} // verus!

verus! {

/// Rows of the `n` by `n` identity.
pub open spec fn identity_rows(n: int) -> Seq<Seq<int>> {
    Seq::new(n as nat, |i: int| Seq::new(n as nat, |j: int| if i == j { SCALE as int } else { 0 }))
}

/// Rows of the `n` by `n` matrix of ones.
pub open spec fn ones_rows(n: int) -> Seq<Seq<int>> {
    Seq::new(n as nat, |i: int| Seq::new(n as nat, |j: int| SCALE as int))
}

#[verifier::spinoff_prover]
proof fn lemma_identity_cofactors3()
    ensures
        forall|r: int, c: int|
            0 <= r < 3 && 0 <= c < 3 ==> #[trigger] cofactor3(identity_rows(3), r, c) == if r == c {
                SCALE as int
            } else {
                0
            },
        forall|r: int, c: int|
            0 <= r < 3 && 0 <= c < 3 ==> fits(#[trigger] det2(submatrix(identity_rows(3), 3, r, c))),
{
    let m = identity_rows(3);
    assert forall|r: int, c: int| 0 <= r < 3 && 0 <= c < 3 implies #[trigger] cofactor3(m, r, c) == if r == c {
        SCALE as int
    } else {
        0
    } && fits(det2(submatrix(m, 3, r, c))) by {
        let sub = submatrix(m, 3, r, c);
        assert(sub[0][0] == m[skip_index(0, r)][skip_index(0, c)]);
        assert(sub[0][1] == m[skip_index(0, r)][skip_index(1, c)]);
        assert(sub[1][0] == m[skip_index(1, r)][skip_index(0, c)]);
        assert(sub[1][1] == m[skip_index(1, r)][skip_index(1, c)]);
    }
}

/// The 3 by 3 identity has determinant one, and its inverse is itself,
/// exactly.
#[verifier::spinoff_prover]
pub proof fn lemma_identity_inverse3()
    ensures
        det_in_range(identity_rows(3), 3),
        det_n(identity_rows(3), 3) == SCALE,
        cofactors_in_range(identity_rows(3), 3),
        quotients_fit(identity_rows(3), 3),
        is_inverse_of(identity_rows(3), identity_rows(3), 3),
{
    let m = identity_rows(3);
    lemma_identity_cofactors3();
    assert(m[0][0] == SCALE && m[0][1] == 0 && m[0][2] == 0);
    assert(cofactor3(m, 0, 0) == SCALE);
    assert(cofactor3(m, 0, 1) == 0);
    assert(cofactor3(m, 0, 2) == 0);
    assert(det3(m) == SCALE);
    assert forall|c: int| 0 <= c < 3 implies #[trigger] cofactor_in_range(m, 3, 0, c) by {}
    assert forall|i: int, j: int| 0 <= i < 3 && 0 <= j < 3 implies #[trigger] m[i][j] == div_raw(
        cofactor(m, 3, j, i),
        det_n(m, 3),
    ) && fits(div_raw(cofactor(m, 3, j, i), det_n(m, 3))) by {
        assert(cofactor(m, 3, j, i) == cofactor3(m, j, i));
    }
    assert forall|r: int, c: int| 0 <= r < 3 && 0 <= c < 3 implies #[trigger] cofactor_in_range(m, 3, r, c) by {}
}

/// Products of 0, 1 and -1 are exact.
proof fn lemma_mul_units(a: int, b: int)
    requires
        a == 0 || a == SCALE || a == -SCALE,
        b == 0 || b == SCALE || b == -SCALE,
    ensures
        mul_raw(a, b) == if a == 0 || b == 0 {
            0
        } else if (a == SCALE) == (b == SCALE) {
            SCALE as int
        } else {
            -SCALE
        },
{
    let s = SCALE as int;
    assert(s * s / s == s) by (nonlinear_arith)
        requires
            s == 1_000_000_000,
    ;
    assert(s * (-s) == -(s * s)) by (nonlinear_arith);
    assert((-s) * s == -(s * s)) by (nonlinear_arith);
    assert((-s) * (-s) == s * s) by (nonlinear_arith);
}

#[verifier::spinoff_prover]
#[verifier::rlimit(50)]
proof fn lemma_identity_cofactor4(r: int, c: int)
    requires
        0 <= r < 4,
        0 <= c < 4,
    ensures
        det3_in_range(submatrix(identity_rows(4), 4, r, c)),
        cofactor4(identity_rows(4), r, c) == if r == c {
            SCALE as int
        } else {
            0
        },
{
    let m = identity_rows(4);
    let sub = submatrix(m, 4, r, c);
    assert forall|i: int, j: int| 0 <= i < 3 && 0 <= j < 3 implies #[trigger] sub[i][j] == if skip_index(
        i,
        r,
    ) == skip_index(j, c) {
        SCALE as int
    } else {
        0
    } by {}
    assert forall|a: int, b: int| 0 <= a < 3 && 0 <= b < 3 implies fits(
        #[trigger] det2(submatrix(sub, 3, a, b)),
    ) && {
        let d = det2(submatrix(sub, 3, a, b));
        d == 0 || d == SCALE || d == -SCALE
    } by {
        let t = submatrix(sub, 3, a, b);
        assert(t[0][0] == sub[skip_index(0, a)][skip_index(0, b)]);
        assert(t[0][1] == sub[skip_index(0, a)][skip_index(1, b)]);
        assert(t[1][0] == sub[skip_index(1, a)][skip_index(0, b)]);
        assert(t[1][1] == sub[skip_index(1, a)][skip_index(1, b)]);
        lemma_mul_units(t[0][0], t[1][1]);
        lemma_mul_units(t[0][1], t[1][0]);
        assert(t[0][0] == 0 || t[1][1] == 0 || t[0][1] == 0 || t[1][0] == 0) by {
            if r == 0 && c == 0 {} else if r == 0 && c == 1 {} else if r == 0 && c == 2 {} else if r == 0 && c == 3 {}
            else if r == 1 && c == 0 {} else if r == 1 && c == 1 {} else if r == 1 && c == 2 {} else if r == 1 && c == 3 {}
            else if r == 2 && c == 0 {} else if r == 2 && c == 1 {} else if r == 2 && c == 2 {} else if r == 2 && c == 3 {}
            else if r == 3 && c == 0 {} else if r == 3 && c == 1 {} else if r == 3 && c == 2 {} else {}
        }
    }
    assert(cofactor3(sub, 0, 0) == det2(submatrix(sub, 3, 0, 0)));
    assert(cofactor3(sub, 0, 1) == -det2(submatrix(sub, 3, 0, 1)));
    assert(cofactor3(sub, 0, 2) == det2(submatrix(sub, 3, 0, 2)));
    lemma_mul_units(sub[0][0], cofactor3(sub, 0, 0));
    lemma_mul_units(sub[0][1], cofactor3(sub, 0, 1));
    lemma_mul_units(sub[0][2], cofactor3(sub, 0, 2));
    if r == c {
        assert(sub =~~= identity_rows(3));
        lemma_identity_inverse3();
    } else {
        assert(det3(sub) == 0) by {
            if r == 0 && c == 1 {} else if r == 0 && c == 2 {} else if r == 0 && c == 3 {}
            else if r == 1 && c == 0 {} else if r == 1 && c == 2 {} else if r == 1 && c == 3 {}
            else if r == 2 && c == 0 {} else if r == 2 && c == 1 {} else if r == 2 && c == 3 {}
            else if r == 3 && c == 0 {} else if r == 3 && c == 1 {} else {}
        }
    }
}

/// The 4 by 4 identity has determinant one, and its inverse is itself,
/// exactly.
#[verifier::spinoff_prover]
pub proof fn lemma_identity_inverse4()
    ensures
        det_in_range(identity_rows(4), 4),
        det_n(identity_rows(4), 4) == SCALE,
        cofactors_in_range(identity_rows(4), 4),
        quotients_fit(identity_rows(4), 4),
        is_inverse_of(identity_rows(4), identity_rows(4), 4),
{
    let m = identity_rows(4);
    assert forall|r: int, c: int| 0 <= r < 4 && 0 <= c < 4 implies #[trigger] cofactor_in_range(m, 4, r, c)
        && cofactor4(m, r, c) == if r == c {
        SCALE as int
    } else {
        0
    } by {
        lemma_identity_cofactor4(r, c);
    }
    assert(m[0][0] == SCALE && m[0][1] == 0 && m[0][2] == 0 && m[0][3] == 0);
    lemma_identity_cofactor4(0, 0);
    lemma_identity_cofactor4(0, 1);
    lemma_identity_cofactor4(0, 2);
    lemma_identity_cofactor4(0, 3);
    assert(cofactor_in_range(m, 4, 0, 0) && cofactor4(m, 0, 0) == SCALE);
    assert(cofactor_in_range(m, 4, 0, 1) && cofactor4(m, 0, 1) == 0);
    assert(cofactor_in_range(m, 4, 0, 2) && cofactor4(m, 0, 2) == 0);
    assert(cofactor_in_range(m, 4, 0, 3) && cofactor4(m, 0, 3) == 0);
    assert(det4(m) == SCALE);
    assert forall|c: int| 0 <= c < 4 implies det3_in_range(#[trigger] submatrix(m, 4, 0, c)) by {
        assert(cofactor_in_range(m, 4, 0, c));
    }
    assert forall|i: int, j: int| 0 <= i < 4 && 0 <= j < 4 implies #[trigger] m[i][j] == div_raw(
        cofactor(m, 4, j, i),
        det_n(m, 4),
    ) && fits(div_raw(cofactor(m, 4, j, i), det_n(m, 4))) by {
        assert(cofactor_in_range(m, 4, j, i));
        assert(cofactor(m, 4, j, i) == cofactor4(m, j, i));
    }
}

/// The determinant of a matrix of ones of size 2, 3 or 4 is zero.
proof fn lemma_ones_det(n: int)
    requires
        2 <= n <= 4,
    ensures
        det_n(ones_rows(n), n) == 0,
{
    let s = SCALE as int;
    lemma_mul_units(s, s);
    lemma_mul_units(s, 0);
    let o2 = ones_rows(2);
    let o3 = ones_rows(3);
    let o4 = ones_rows(4);
    assert(det2(o2) == 0);
    assert forall|c: int| 0 <= c < 3 implies #[trigger] det2(submatrix(o3, 3, 0, c)) == 0 by {
        let t = submatrix(o3, 3, 0, c);
        assert(t[0][0] == s && t[0][1] == s && t[1][0] == s && t[1][1] == s);
    }
    assert(det3(o3) == 0) by {
        assert(cofactor3(o3, 0, 0) == 0 && cofactor3(o3, 0, 1) == 0 && cofactor3(o3, 0, 2) == 0);
    }
    assert forall|c: int| 0 <= c < 4 implies #[trigger] det3(submatrix(o4, 4, 0, c)) == 0 by {
        let t = submatrix(o4, 4, 0, c);
        assert(t =~~= o3);
    }
    assert(det4(o4) == 0) by {
        assert(cofactor4(o4, 0, 0) == 0 && cofactor4(o4, 0, 1) == 0);
        assert(cofactor4(o4, 0, 2) == 0 && cofactor4(o4, 0, 3) == 0);
    }
}

/// The identity of size 2, 3 or 4 has an inverse, and that inverse is the
/// identity itself, exactly; the matrix of ones of the same size has
/// determinant zero, so it has no inverse.
pub proof fn lemma_identity_and_ones_inverse(n: int)
    requires
        2 <= n <= 4,
    ensures
        det_in_range(identity_rows(n), n),
        det_n(identity_rows(n), n) == SCALE,
        cofactors_in_range(identity_rows(n), n),
        quotients_fit(identity_rows(n), n),
        is_inverse_of(identity_rows(n), identity_rows(n), n),
        det_n(ones_rows(n), n) == 0,
{
    lemma_ones_det(n);
    if n == 2 {
        let m = identity_rows(2);
        let s = SCALE as int;
        lemma_mul_units(s, s);
        lemma_mul_units(0, 0);
        assert(m[0][0] == s && m[0][1] == 0 && m[1][0] == 0 && m[1][1] == s);
        assert(det2(m) == s);
        assert(sign(0, 0) == 1 && sign(0, 1) == -1 && sign(1, 0) == -1 && sign(1, 1) == 1);
        assert forall|i: int, j: int| 0 <= i < 2 && 0 <= j < 2 implies #[trigger] m[i][j] == div_raw(
            cofactor(m, 2, j, i),
            det_n(m, 2),
        ) && fits(div_raw(cofactor(m, 2, j, i), det_n(m, 2))) by {
            assert(s * s / s == s) by (nonlinear_arith)
                requires
                    s == 1_000_000_000,
            ;
        }
        assert forall|r: int, c: int| 0 <= r < 2 && 0 <= c < 2 implies #[trigger] cofactor_in_range(m, 2, r, c) by {}
    } else if n == 3 {
        lemma_identity_inverse3();
    } else {
        lemma_identity_inverse4();
    }
}

} // verus!
