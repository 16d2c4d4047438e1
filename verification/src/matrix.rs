//! Rectangular matrices of exact rationals and the basic operations on them.

use crate::error::MatrixError;
use crate::linalg::dot;
use crate::linalg::dot_prefix;
use crate::linalg::is_matrix;
use crate::linalg::kronecker;
use crate::linalg::mat_diagonal;
use crate::linalg::mat_identity;
use crate::linalg::mat_product;
use crate::linalg::mat_product_transposed;
use crate::linalg::mat_row_scale;
use crate::linalg::mat_row_scale_add;
use crate::linalg::mat_row_sums;
use crate::linalg::mat_row_swap;
use crate::linalg::mat_transpose;
use crate::linalg::sum;
use crate::linalg::sum_prefix;
use crate::rational::Rational;
use crate::rational::is_whole;
use crate::rational::parsed_value;
use crate::rational::real_pow;
use crate::rational::round_half_away;
use vstd::prelude::*;

verus! {

/// The numbers that a row of rationals denotes.
pub open spec fn row_values(r: Seq<Rational>) -> Seq<real> {
    Seq::new(r.len(), |j: int| r[j]@)
}

/// Every rational of the row is in canonical form.
pub open spec fn row_wf(r: Seq<Rational>) -> bool {
    forall|j: int| 0 <= j < r.len() ==> (#[trigger] r[j]).wf()
}

/// The rows, as sequences, of a vector of vectors.
pub open spec fn rows_of(rows: Seq<Vec<Rational>>) -> Seq<Seq<Rational>> {
    Seq::new(rows.len(), |i: int| rows[i]@)
}

/// The rows form a non-empty rectangle of canonical rationals.
pub open spec fn rows_wf(rows: Seq<Seq<Rational>>) -> bool {
    &&& rows.len() >= 1
    &&& rows[0].len() >= 1
    &&& forall|i: int| 0 <= i < rows.len() ==> (#[trigger] rows[i]).len() == rows[0].len()
    &&& forall|i: int| 0 <= i < rows.len() ==> row_wf(#[trigger] rows[i])
}

/// The real matrix that the rows denote.
pub open spec fn rows_values(rows: Seq<Seq<Rational>>) -> Seq<Seq<real>> {
    Seq::new(rows.len(), |i: int| row_values(rows[i]))
}

/// A non-empty rectangular matrix of exact rationals, stored row by row.
pub struct Matrix {
    pub(crate) rows: Vec<Vec<Rational>>,
}

impl Matrix {
    /// The entries, row by row.
    pub open(crate) spec fn entries(&self) -> Seq<Seq<Rational>> {
        rows_of(self.rows@)
    }

    /// The matrix is non-empty and rectangular, and each entry is canonical.
    pub open spec fn wf(&self) -> bool {
        rows_wf(self.entries())
    }

    /// The number of rows.
    pub open spec fn nrows(&self) -> nat {
        self.entries().len()
    }

    /// The number of columns.
    pub open spec fn ncols(&self) -> nat {
        self.entries()[0].len()
    }
}

impl View for Matrix {
    type V = Seq<Seq<real>>;

    open spec fn view(&self) -> Seq<Seq<real>> {
        rows_values(self.entries())
    }
}

/// A well-formed matrix denotes a real matrix of the same shape.
#[verifier::spinoff_prover]
pub proof fn lemma_view_shape(m: &Matrix)
    requires
        m.wf(),
    ensures
        is_matrix(m@, m.nrows(), m.ncols()),
        m.nrows() >= 1,
        m.ncols() >= 1,
{
}

impl Matrix {
    /// Makes a matrix of the given rows, if they form a non-empty rectangle.
    #[verifier::spinoff_prover]
    pub fn from_rows(rows: Vec<Vec<Rational>>) -> (r: Option<Matrix>)
        requires
            forall|i: int| 0 <= i < rows@.len() ==> row_wf(#[trigger] rows@[i]@),
        ensures
            r.is_some() <==> rows_wf(rows_of(rows@)),
            r.is_some() ==> r.unwrap().wf() && r.unwrap().entries() == rows_of(rows@),
    {
        if rows.len() == 0 {
            return None;
        }
        let width = rows[0].len();
        if width == 0 {
            return None;
        }
        let mut i: usize = 1;
        while i < rows.len()
            invariant
                1 <= i <= rows.len(),
                width == rows@[0]@.len(),
                forall|k: int| 0 <= k < i ==> (#[trigger] rows@[k])@.len() == width,
            decreases rows.len() - i,
        {
            if rows[i].len() != width {
                assert(rows_of(rows@)[i as int].len() != rows_of(rows@)[0].len());
                return None;
            }
            i += 1;
        }
        assert forall|k: int| 0 <= k < rows_of(rows@).len() implies row_wf(
            #[trigger] rows_of(rows@)[k],
        ) by {
            assert(row_wf(rows@[k]@));
        }
        assert forall|k: int| 0 <= k < rows_of(rows@).len() implies (#[trigger] rows_of(
            rows@,
        )[k]).len() == rows_of(rows@)[0].len() by {
            assert(rows@[k]@.len() == width);
        }
        Some(Matrix { rows })
    }

    /// The number of rows.
    #[verifier::spinoff_prover]
    pub fn row_count(&self) -> (n: usize)
        ensures
            n == self.nrows(),
    {
        self.rows.len()
    }

    /// The number of columns.
    #[verifier::spinoff_prover]
    pub fn col_count(&self) -> (n: usize)
        requires
            self.wf(),
        ensures
            n == self.ncols(),
    {
        self.rows[0].len()
    }

    /// A copy of the entry in row `i`, column `j`.
    #[verifier::spinoff_prover]
    pub fn entry(&self, i: usize, j: usize) -> (r: Rational)
        requires
            self.wf(),
            i < self.nrows(),
            j < self.ncols(),
        ensures
            r.wf(),
            r@ == self@[i as int][j as int],
    {
        assert(self.entries()[i as int].len() == self.ncols());
        assert(row_wf(self.entries()[i as int]));
        self.rows[i][j].clone()
    }
}

/// The inner product of two rows of rationals of equal length.
#[verifier::spinoff_prover]
pub fn dot_product(u: &Vec<Rational>, v: &Vec<Rational>) -> (r: Rational)
    requires
        row_wf(u@),
        row_wf(v@),
        u@.len() == v@.len(),
    ensures
        r.wf(),
        r@ == dot(row_values(u@), row_values(v@)),
{
    let mut acc = Rational::zero();
    let mut k: usize = 0;
    while k < u.len()
        invariant
            k <= u@.len(),
            u@.len() == v@.len(),
            row_wf(u@),
            row_wf(v@),
            acc.wf(),
            acc@ == dot_prefix(row_values(u@), row_values(v@), k as nat),
        decreases u@.len() - k,
    {
        let p = u[k].mul(&v[k]);
        acc = acc.add(&p);
        k += 1;
    }
    acc
}

/// The sum of a row of rationals.
#[verifier::spinoff_prover]
pub fn row_sum(u: &Vec<Rational>) -> (r: Rational)
    requires
        row_wf(u@),
    ensures
        r.wf(),
        r@ == sum(row_values(u@)),
{
    let mut acc = Rational::zero();
    let mut k: usize = 0;
    while k < u.len()
        invariant
            k <= u@.len(),
            row_wf(u@),
            acc.wf(),
            acc@ == sum_prefix(row_values(u@), k as nat),
        decreases u@.len() - k,
    {
        acc = acc.add(&u[k]);
        k += 1;
    }
    acc
}

/// The identity matrix of size `n`.
#[verifier::spinoff_prover]
pub fn identity(n: usize) -> (m: Matrix)
    requires
        n >= 1,
    ensures
        m.wf(),
        m.nrows() == n,
        m.ncols() == n,
        m@ == mat_identity(n as nat),
{
    let mut rows: Vec<Vec<Rational>> = Vec::new();
    let mut i: usize = 0;
    while i < n
        invariant
            i <= n,
            rows@.len() == i,
            forall|k: int| 0 <= k < i ==> (#[trigger] rows@[k])@.len() == n,
            forall|k: int| 0 <= k < i ==> row_wf(#[trigger] rows@[k]@),
            forall|k: int, l: int|
                0 <= k < i && 0 <= l < n ==> (#[trigger] rows@[k]@[l])@ == kronecker(k, l),
        decreases n - i,
    {
        let mut row: Vec<Rational> = Vec::new();
        let mut j: usize = 0;
        while j < n
            invariant
                j <= n,
                i < n,
                row@.len() == j,
                row_wf(row@),
                forall|l: int| 0 <= l < j ==> (#[trigger] row@[l])@ == kronecker(i as int, l),
            decreases n - j,
        {
            let x = if i == j {
                Rational::one()
            } else {
                Rational::zero()
            };
            row.push(x);
            j += 1;
        }
        rows.push(row);
        i += 1;
    }
    let m = Matrix { rows };
    assert(m@ =~~= mat_identity(n as nat));
    m
}

/// The transpose of `a`.
#[verifier::spinoff_prover]
pub fn transpose(a: &Matrix) -> (m: Matrix)
    requires
        a.wf(),
    ensures
        m.wf(),
        m.nrows() == a.ncols(),
        m.ncols() == a.nrows(),
        m@ == mat_transpose(a@),
{
    let nr = a.rows.len();
    let nc = a.rows[0].len();
    let mut rows: Vec<Vec<Rational>> = Vec::new();
    let mut j: usize = 0;
    while j < nc
        invariant
            j <= nc,
            a.wf(),
            nr == a.nrows(),
            nc == a.ncols(),
            rows@.len() == j,
            forall|k: int| 0 <= k < j ==> (#[trigger] rows@[k])@.len() == nr,
            forall|k: int| 0 <= k < j ==> row_wf(#[trigger] rows@[k]@),
            forall|k: int, l: int|
                0 <= k < j && 0 <= l < nr ==> (#[trigger] rows@[k]@[l])@ == a@[l][k],
        decreases nc - j,
    {
        let mut row: Vec<Rational> = Vec::new();
        let mut i: usize = 0;
        while i < nr
            invariant
                i <= nr,
                j < nc,
                a.wf(),
                nr == a.nrows(),
                nc == a.ncols(),
                row@.len() == i,
                row_wf(row@),
                forall|l: int| 0 <= l < i ==> (#[trigger] row@[l])@ == a@[l][j as int],
            decreases nr - i,
        {
            assert(a.entries()[i as int].len() == nc);
            assert(row_wf(a.entries()[i as int]));
            row.push(a.rows[i][j].clone());
            i += 1;
        }
        rows.push(row);
        j += 1;
    }
    let m = Matrix { rows };
    assert(m@ =~~= mat_transpose(a@));
    m
}

/// The product of `a` with the transpose of `bt`, or `DimensionMismatch` if
/// the rows of the two matrices differ in length.
#[verifier::spinoff_prover]
pub fn multiplyabt(a: &Matrix, bt: &Matrix) -> (r: Result<Matrix, MatrixError>)
    requires
        a.wf(),
        bt.wf(),
    ensures
        r.is_ok() <==> a.ncols() == bt.ncols(),
        r.is_err() ==> r == Err::<Matrix, MatrixError>(MatrixError::DimensionMismatch),
        r.is_ok() ==> {
            let m = r.unwrap();
            &&& m.wf()
            &&& m.nrows() == a.nrows()
            &&& m.ncols() == bt.nrows()
            &&& m@ == mat_product_transposed(a@, bt@)
        },
{
    let nr = a.rows.len();
    let nc = bt.rows.len();
    if a.rows[0].len() != bt.rows[0].len() {
        return Err(MatrixError::DimensionMismatch);
    }
    let mut rows: Vec<Vec<Rational>> = Vec::new();
    let mut i: usize = 0;
    while i < nr
        invariant
            i <= nr,
            a.wf(),
            bt.wf(),
            nr == a.nrows(),
            nc == bt.nrows(),
            a.ncols() == bt.ncols(),
            rows@.len() == i,
            forall|k: int| 0 <= k < i ==> (#[trigger] rows@[k])@.len() == nc,
            forall|k: int| 0 <= k < i ==> row_wf(#[trigger] rows@[k]@),
            forall|k: int, l: int|
                0 <= k < i && 0 <= l < nc ==> (#[trigger] rows@[k]@[l])@ == dot(a@[k], bt@[l]),
        decreases nr - i,
    {
        let mut row: Vec<Rational> = Vec::new();
        let mut j: usize = 0;
        while j < nc
            invariant
                j <= nc,
                i < nr,
                a.wf(),
                bt.wf(),
                nr == a.nrows(),
                nc == bt.nrows(),
                a.ncols() == bt.ncols(),
                row@.len() == j,
                row_wf(row@),
                forall|l: int| 0 <= l < j ==> (#[trigger] row@[l])@ == dot(a@[i as int], bt@[l]),
            decreases nc - j,
        {
            assert(a.entries()[i as int].len() == a.ncols());
            assert(bt.entries()[j as int].len() == bt.ncols());
            assert(row_wf(a.entries()[i as int]));
            assert(row_wf(bt.entries()[j as int]));
            let x = dot_product(&a.rows[i], &bt.rows[j]);
            row.push(x);
            j += 1;
        }
        rows.push(row);
        i += 1;
    }
    let m = Matrix { rows };
    assert(m@ =~~= mat_product_transposed(a@, bt@));
    Ok(m)
}

/// The product of a matrix with a transposed matrix is the product with the
/// matrix itself.
#[verifier::spinoff_prover]
pub proof fn lemma_product_transposed(a: Seq<Seq<real>>, b: Seq<Seq<real>>)
    requires
        b.len() >= 1,
    ensures
        mat_product_transposed(a, mat_transpose(b)) == mat_product(a, b),
{
    assert(mat_product_transposed(a, mat_transpose(b)) =~~= mat_product(a, b));
}

/// The matrix product `a`·`b`, or `DimensionMismatch` if `a` has not as many
/// columns as `b` has rows.
#[verifier::spinoff_prover]
pub fn multiply(a: &Matrix, b: &Matrix) -> (r: Result<Matrix, MatrixError>)
    requires
        a.wf(),
        b.wf(),
    ensures
        r.is_ok() <==> a.ncols() == b.nrows(),
        r.is_err() ==> r == Err::<Matrix, MatrixError>(MatrixError::DimensionMismatch),
        r.is_ok() ==> {
            let m = r.unwrap();
            &&& m.wf()
            &&& m.nrows() == a.nrows()
            &&& m.ncols() == b.ncols()
            &&& m@ == mat_product(a@, b@)
        },
{
    let bt = transpose(b);
    proof {
        lemma_product_transposed(a@, b@);
    }
    multiplyabt(a, &bt)
}

/// The square matrix with the entries of `v` on its diagonal and zero
/// elsewhere.
#[verifier::spinoff_prover]
pub fn diag(v: &Vec<Rational>) -> (m: Matrix)
    requires
        v@.len() >= 1,
        row_wf(v@),
    ensures
        m.wf(),
        m.nrows() == v@.len(),
        m.ncols() == v@.len(),
        m@ == mat_diagonal(row_values(v@)),
{
    let n = v.len();
    let mut rows: Vec<Vec<Rational>> = Vec::new();
    let mut i: usize = 0;
    while i < n
        invariant
            i <= n,
            n == v@.len(),
            row_wf(v@),
            rows@.len() == i,
            forall|k: int| 0 <= k < i ==> (#[trigger] rows@[k])@.len() == n,
            forall|k: int| 0 <= k < i ==> row_wf(#[trigger] rows@[k]@),
            forall|k: int, l: int|
                0 <= k < i && 0 <= l < n ==> (#[trigger] rows@[k]@[l])@ == mat_diagonal(
                    row_values(v@),
                )[k][l],
        decreases n - i,
    {
        let mut row: Vec<Rational> = Vec::new();
        let mut j: usize = 0;
        while j < n
            invariant
                j <= n,
                i < n,
                n == v@.len(),
                row_wf(v@),
                row@.len() == j,
                row_wf(row@),
                forall|l: int|
                    0 <= l < j ==> (#[trigger] row@[l])@ == mat_diagonal(row_values(v@))[i as int][l],
            decreases n - j,
        {
            let x = if i == j {
                v[i].clone()
            } else {
                Rational::zero()
            };
            row.push(x);
            j += 1;
        }
        rows.push(row);
        i += 1;
    }
    let m = Matrix { rows };
    assert(m@ =~~= mat_diagonal(row_values(v@)));
    m
}

/// The column vector whose entry i is the sum of row i of `a` over all its
/// columns.
#[verifier::spinoff_prover]
pub fn sum_columns(a: &Matrix) -> (m: Matrix)
    requires
        a.wf(),
    ensures
        m.wf(),
        m.nrows() == a.nrows(),
        m.ncols() == 1,
        m@ == mat_row_sums(a@),
{
    let nr = a.rows.len();
    let mut rows: Vec<Vec<Rational>> = Vec::new();
    let mut i: usize = 0;
    while i < nr
        invariant
            i <= nr,
            a.wf(),
            nr == a.nrows(),
            rows@.len() == i,
            forall|k: int| 0 <= k < i ==> (#[trigger] rows@[k])@.len() == 1,
            forall|k: int| 0 <= k < i ==> row_wf(#[trigger] rows@[k]@),
            forall|k: int| 0 <= k < i ==> (#[trigger] rows@[k])@[0]@ == sum(a@[k]),
        decreases nr - i,
    {
        assert(row_wf(a.entries()[i as int]));
        let s = row_sum(&a.rows[i]);
        let mut row: Vec<Rational> = Vec::new();
        row.push(s);
        rows.push(row);
        i += 1;
    }
    let m = Matrix { rows };
    assert(m@ =~~= mat_row_sums(a@));
    m
}

/// `x` rounded to the nearest multiple of 1/`d`, halfway cases going away
/// from zero.
pub open spec fn round_to(x: real, d: real) -> real {
    round_half_away(x * d) as real / d
}

/// `m` with every entry rounded to the nearest multiple of 1/`d`.
pub open spec fn mat_rounded(m: Seq<Seq<real>>, d: real) -> Seq<Seq<real>> {
    Seq::new(m.len(), |i: int| Seq::new(m[i].len(), |j: int| round_to(m[i][j], d)))
}

/// Every entry of `m`, multiplied by ten to the power `dp`, is a whole
/// number: `dp` decimal places show the matrix exactly.
pub open spec fn mat_is_exact(m: Seq<Seq<real>>, dp: int) -> bool {
    forall|i: int, j: int|
        0 <= i < m.len() && 0 <= j < m[i].len() ==> is_whole(
            #[trigger] m[i][j] * real_pow(10real, dp),
        )
}

/// `<[T]>::swap` on the rows of a matrix: the rows at `i` and `j` change
/// places and every other row stays. It panics on an index out of range,
/// which the precondition excludes.
#[verifier::external_body]
pub(crate) fn swap_rows(rows: &mut Vec<Vec<Rational>>, i: usize, j: usize)
    requires
        i < old(rows)@.len(),
        j < old(rows)@.len(),
    ensures
        final(rows)@ == old(rows)@.update(i as int, old(rows)@[j as int]).update(
            j as int,
            old(rows)@[i as int],
        ),
{
    rows.swap(i, j);
}

impl Matrix {
    /// Whether two matrices have the same shape and equal entries.
    #[verifier::spinoff_prover]
    pub fn equals(&self, other: &Matrix) -> (r: bool)
        requires
            self.wf(),
            other.wf(),
        ensures
            r == (self@ == other@),
    {
        let nr = self.rows.len();
        let nc = self.rows[0].len();
        if other.rows.len() != nr {
            assert(self@.len() != other@.len());
            return false;
        }
        if other.rows[0].len() != nc {
            assert(self@[0].len() != other@[0].len());
            return false;
        }
        let mut i: usize = 0;
        while i < nr
            invariant
                i <= nr,
                self.wf(),
                other.wf(),
                nr == self.nrows(),
                nr == other.nrows(),
                nc == self.ncols(),
                nc == other.ncols(),
                forall|k: int, l: int|
                    0 <= k < i && 0 <= l < nc ==> (#[trigger] self@[k][l]) == other@[k][l],
            decreases nr - i,
        {
            let mut j: usize = 0;
            while j < nc
                invariant
                    j <= nc,
                    i < nr,
                    self.wf(),
                    other.wf(),
                    nr == self.nrows(),
                    nr == other.nrows(),
                    nc == self.ncols(),
                    nc == other.ncols(),
                    forall|l: int|
                        0 <= l < j ==> (#[trigger] self@[i as int][l]) == other@[i as int][l],
                decreases nc - j,
            {
                assert(self.entries()[i as int].len() == nc);
                assert(other.entries()[i as int].len() == nc);
                assert(row_wf(self.entries()[i as int]));
                assert(row_wf(other.entries()[i as int]));
                if !self.rows[i][j].equals(&other.rows[i][j]) {
                    assert(self@[i as int][j as int] != other@[i as int][j as int]);
                    return false;
                }
                j += 1;
            }
            i += 1;
        }
        assert forall|k: int| 0 <= k < nr implies (#[trigger] self@[k]) =~= other@[k] by {
            assert(self.entries()[k].len() == nc);
            assert(other.entries()[k].len() == nc);
            assert forall|l: int| 0 <= l < nc implies self@[k][l] == other@[k][l] by {}
        }
        assert(self@ =~= other@);
        true
    }

    /// A copy of the matrix.
    #[verifier::spinoff_prover]
    pub fn duplicate(&self) -> (m: Matrix)
        requires
            self.wf(),
        ensures
            m.wf(),
            m.nrows() == self.nrows(),
            m.ncols() == self.ncols(),
            m@ == self@,
    {
        let nr = self.rows.len();
        let nc = self.rows[0].len();
        let mut rows: Vec<Vec<Rational>> = Vec::new();
        let mut i: usize = 0;
        while i < nr
            invariant
                i <= nr,
                self.wf(),
                nr == self.nrows(),
                nc == self.ncols(),
                rows@.len() == i,
                forall|k: int| 0 <= k < i ==> (#[trigger] rows@[k])@.len() == nc,
                forall|k: int| 0 <= k < i ==> row_wf(#[trigger] rows@[k]@),
                forall|k: int, l: int|
                    0 <= k < i && 0 <= l < nc ==> (#[trigger] rows@[k]@[l])@ == self@[k][l],
            decreases nr - i,
        {
            let mut row: Vec<Rational> = Vec::new();
            let mut j: usize = 0;
            while j < nc
                invariant
                    j <= nc,
                    i < nr,
                    self.wf(),
                    nr == self.nrows(),
                    nc == self.ncols(),
                    row@.len() == j,
                    row_wf(row@),
                    forall|l: int| 0 <= l < j ==> (#[trigger] row@[l])@ == self@[i as int][l],
                decreases nc - j,
            {
                assert(self.entries()[i as int].len() == nc);
                assert(row_wf(self.entries()[i as int]));
                row.push(self.rows[i][j].clone());
                j += 1;
            }
            rows.push(row);
            i += 1;
        }
        let m = Matrix { rows };
        assert forall|k: int| 0 <= k < nr implies (#[trigger] m@[k]) =~= self@[k] by {
            assert(self.entries()[k].len() == nc);
        }
        assert(m@ =~= self@);
        m
    }
}

/// Multiplies row `i` of `a` by `sc`, in place.
#[verifier::spinoff_prover]
pub fn row_scale(a: &mut Matrix, i: usize, sc: &Rational)
    requires
        old(a).wf(),
        i < old(a).nrows(),
        sc.wf(),
    ensures
        final(a).wf(),
        final(a).nrows() == old(a).nrows(),
        final(a).ncols() == old(a).ncols(),
        final(a)@ == mat_row_scale(old(a)@, i as int, sc@),
{
    let nc = a.rows[0].len();
    let ghost before = *a;
    let mut row: Vec<Rational> = Vec::new();
    let mut k: usize = 0;
    while k < nc
        invariant
            k <= nc,
            *a == before,
            before.wf(),
            nc == before.ncols(),
            i < before.nrows(),
            sc.wf(),
            row@.len() == k,
            row_wf(row@),
            forall|l: int| 0 <= l < k ==> (#[trigger] row@[l])@ == sc@ * before@[i as int][l],
        decreases nc - k,
    {
        assert(a.entries()[i as int].len() == nc);
        assert(row_wf(a.entries()[i as int]));
        let x = sc.mul(&a.rows[i][k]);
        row.push(x);
        k += 1;
    }
    a.rows[i] = row;
    proof {
        assert forall|r: int| 0 <= r < a.entries().len() implies (#[trigger] a.entries()[r]).len()
            == nc && row_wf(a.entries()[r]) by {
            if r != i {
                assert(a.entries()[r] == before.entries()[r]);
            }
        }
        assert(before.entries()[i as int].len() == nc);
        assert forall|r: int| 0 <= r < a@.len() implies (#[trigger] a@[r]) =~= mat_row_scale(
            before@,
            i as int,
            sc@,
        )[r] by {
            if r != i {
                assert(a.entries()[r] == before.entries()[r]);
            }
        }
        assert(a@ =~= mat_row_scale(before@, i as int, sc@));
    }
}

/// Adds `sc` times row `i` of `a` to row `j`, in place.
#[verifier::spinoff_prover]
pub fn row_scale_add(a: &mut Matrix, i: usize, sc: &Rational, j: usize)
    requires
        old(a).wf(),
        i < old(a).nrows(),
        j < old(a).nrows(),
        sc.wf(),
    ensures
        final(a).wf(),
        final(a).nrows() == old(a).nrows(),
        final(a).ncols() == old(a).ncols(),
        final(a)@ == mat_row_scale_add(old(a)@, i as int, sc@, j as int),
{
    let nc = a.rows[0].len();
    let ghost before = *a;
    let mut row: Vec<Rational> = Vec::new();
    let mut k: usize = 0;
    while k < nc
        invariant
            k <= nc,
            *a == before,
            before.wf(),
            nc == before.ncols(),
            i < before.nrows(),
            j < before.nrows(),
            sc.wf(),
            row@.len() == k,
            row_wf(row@),
            forall|l: int|
                0 <= l < k ==> (#[trigger] row@[l])@ == before@[j as int][l] + sc@
                    * before@[i as int][l],
        decreases nc - k,
    {
        assert(a.entries()[i as int].len() == nc);
        assert(a.entries()[j as int].len() == nc);
        assert(row_wf(a.entries()[i as int]));
        assert(row_wf(a.entries()[j as int]));
        let tmp = sc.mul(&a.rows[i][k]);
        let x = a.rows[j][k].add(&tmp);
        row.push(x);
        k += 1;
    }
    a.rows[j] = row;
    proof {
        assert forall|r: int| 0 <= r < a.entries().len() implies (#[trigger] a.entries()[r]).len()
            == nc && row_wf(a.entries()[r]) by {
            if r != j {
                assert(a.entries()[r] == before.entries()[r]);
            }
        }
        assert(before.entries()[i as int].len() == nc);
        assert(before.entries()[j as int].len() == nc);
        assert forall|r: int| 0 <= r < a@.len() implies (#[trigger] a@[r]) =~= mat_row_scale_add(
            before@,
            i as int,
            sc@,
            j as int,
        )[r] by {
            if r != j {
                assert(a.entries()[r] == before.entries()[r]);
            }
        }
        assert(a@ =~= mat_row_scale_add(before@, i as int, sc@, j as int));
    }
}

/// Exchanges rows `i` and `j` of `a`, in place.
#[verifier::spinoff_prover]
pub fn row_swap(a: &mut Matrix, i: usize, j: usize)
    requires
        old(a).wf(),
        i < old(a).nrows(),
        j < old(a).nrows(),
    ensures
        final(a).wf(),
        final(a).nrows() == old(a).nrows(),
        final(a).ncols() == old(a).ncols(),
        final(a)@ == mat_row_swap(old(a)@, i as int, j as int),
{
    let ghost before = *a;
    swap_rows(&mut a.rows, i, j);
    proof {
        let nc = before.ncols();
        assert(before.entries()[i as int].len() == nc);
        assert(before.entries()[j as int].len() == nc);
        assert forall|r: int| 0 <= r < a.entries().len() implies (#[trigger] a.entries()[r]).len()
            == nc && row_wf(a.entries()[r]) by {
            if r == i {
                assert(a.entries()[r] == before.entries()[j as int]);
            } else if r == j {
                assert(a.entries()[r] == before.entries()[i as int]);
            } else {
                assert(a.entries()[r] == before.entries()[r]);
            }
        }
        assert forall|r: int| 0 <= r < a@.len() implies (#[trigger] a@[r]) =~= mat_row_swap(
            before@,
            i as int,
            j as int,
        )[r] by {
            if r == i {
                assert(a.entries()[r] == before.entries()[j as int]);
            } else if r == j {
                assert(a.entries()[r] == before.entries()[i as int]);
            } else {
                assert(a.entries()[r] == before.entries()[r]);
            }
        }
        assert(a@ =~= mat_row_swap(before@, i as int, j as int));
    }
}

/// Every entry of `a` rounded to the nearest multiple of 1/`denom`, halfway
/// cases going away from zero.
#[verifier::spinoff_prover]
pub fn round_to_denominator(a: &Matrix, denom: u64) -> (m: Matrix)
    requires
        a.wf(),
        denom != 0,
    ensures
        m.wf(),
        m.nrows() == a.nrows(),
        m.ncols() == a.ncols(),
        m@ == mat_rounded(a@, denom as real),
{
    let sc = Rational::from_u64(denom).unwrap();
    let nr = a.rows.len();
    let nc = a.rows[0].len();
    let mut rows: Vec<Vec<Rational>> = Vec::new();
    let mut i: usize = 0;
    while i < nr
        invariant
            i <= nr,
            a.wf(),
            nr == a.nrows(),
            nc == a.ncols(),
            sc.wf(),
            sc@ == denom as real,
            denom != 0,
            rows@.len() == i,
            forall|k: int| 0 <= k < i ==> (#[trigger] rows@[k])@.len() == nc,
            forall|k: int| 0 <= k < i ==> row_wf(#[trigger] rows@[k]@),
            forall|k: int, l: int|
                0 <= k < i && 0 <= l < nc ==> (#[trigger] rows@[k]@[l])@ == round_to(
                    a@[k][l],
                    denom as real,
                ),
        decreases nr - i,
    {
        let mut row: Vec<Rational> = Vec::new();
        let mut j: usize = 0;
        while j < nc
            invariant
                j <= nc,
                i < nr,
                a.wf(),
                nr == a.nrows(),
                nc == a.ncols(),
                sc.wf(),
                sc@ == denom as real,
                denom != 0,
                row@.len() == j,
                row_wf(row@),
                forall|l: int|
                    0 <= l < j ==> (#[trigger] row@[l])@ == round_to(
                        a@[i as int][l],
                        denom as real,
                    ),
            decreases nc - j,
        {
            assert(a.entries()[i as int].len() == nc);
            assert(row_wf(a.entries()[i as int]));
            let scaled = a.rows[i][j].mul(&sc);
            let x = scaled.round().div(&sc);
            row.push(x);
            j += 1;
        }
        rows.push(row);
        i += 1;
    }
    let m = Matrix { rows };
    assert forall|k: int| 0 <= k < nr implies (#[trigger] m@[k]) =~= mat_rounded(
        a@,
        denom as real,
    )[k] by {
        assert(a.entries()[k].len() == nc);
    }
    assert(m@ =~= mat_rounded(a@, denom as real));
    m
}

/// Whether `dp` decimal places show every entry of `a` exactly, that is,
/// whether each entry times ten to the power `dp` is a whole number.
#[verifier::spinoff_prover]
pub fn is_exact(a: &Matrix, dp: i32) -> (r: bool)
    requires
        a.wf(),
    ensures
        r == mat_is_exact(a@, dp as int),
{
    let sc = Rational::from_i32(10).unwrap().pow(dp);
    let nr = a.rows.len();
    let nc = a.rows[0].len();
    let mut i: usize = 0;
    while i < nr
        invariant
            i <= nr,
            a.wf(),
            nr == a.nrows(),
            nc == a.ncols(),
            sc.wf(),
            sc@ == real_pow(10real, dp as int),
            forall|k: int, l: int|
                0 <= k < i && 0 <= l < nc ==> is_whole(
                    #[trigger] a@[k][l] * real_pow(10real, dp as int),
                ),
        decreases nr - i,
    {
        let mut j: usize = 0;
        while j < nc
            invariant
                j <= nc,
                i < nr,
                a.wf(),
                nr == a.nrows(),
                nc == a.ncols(),
                sc.wf(),
                sc@ == real_pow(10real, dp as int),
                forall|l: int|
                    0 <= l < j ==> is_whole(
                        #[trigger] a@[i as int][l] * real_pow(10real, dp as int),
                    ),
            decreases nc - j,
        {
            assert(a.entries()[i as int].len() == nc);
            assert(row_wf(a.entries()[i as int]));
            let scaled = a.rows[i][j].mul(&sc);
            if !scaled.is_integer() {
                assert(!is_whole(a@[i as int][j as int] * real_pow(10real, dp as int)));
                return false;
            }
            j += 1;
        }
        i += 1;
    }
    assert forall|k: int, l: int| 0 <= k < a@.len() && 0 <= l < a@[k].len() implies is_whole(
        #[trigger] a@[k][l] * real_pow(10real, dp as int),
    ) by {
        assert(a.entries()[k].len() == nc);
    }
    true
}

/// The texts form a non-empty rectangle.
pub open spec fn texts_rectangular(arr: Seq<Vec<&str>>) -> bool {
    &&& arr.len() >= 1
    &&& arr[0]@.len() >= 1
    &&& forall|i: int| 0 <= i < arr.len() ==> (#[trigger] arr[i])@.len() == arr[0]@.len()
}

/// Every text denotes a number.
pub open spec fn texts_parse(arr: Seq<Vec<&str>>) -> bool {
    forall|i: int, j: int|
        0 <= i < arr.len() && 0 <= j < arr[i]@.len() ==> parsed_value(
            (#[trigger] arr[i]@[j])@,
        ).is_some()
}

/// The matrix whose entries are written in `arr_2d`, each as `numer/denom`
/// or `numer`.
///
/// Fails with `DimensionMismatch` if the texts do not form a non-empty
/// rectangle, and with `Malformed` if they do but one of them is not a
/// number.
#[verifier::spinoff_prover]
pub fn get_matrix(arr_2d: &Vec<Vec<&str>>) -> (r: Result<Matrix, MatrixError>)
    ensures
        r.is_ok() <==> texts_rectangular(arr_2d@) && texts_parse(arr_2d@),
        r == Err::<Matrix, MatrixError>(MatrixError::DimensionMismatch) <==> !texts_rectangular(
            arr_2d@,
        ),
        r == Err::<Matrix, MatrixError>(MatrixError::Malformed) <==> texts_rectangular(arr_2d@)
            && !texts_parse(arr_2d@),
        r.is_ok() ==> {
            let m = r.unwrap();
            &&& m.wf()
            &&& m.nrows() == arr_2d@.len()
            &&& m.ncols() == arr_2d@[0]@.len()
            &&& forall|i: int, j: int|
                0 <= i < m.nrows() && 0 <= j < m.ncols() ==> Some(#[trigger] m@[i][j])
                    == parsed_value(arr_2d@[i]@[j]@)
        },
{
    let nr = arr_2d.len();
    if nr == 0 {
        return Err(MatrixError::DimensionMismatch);
    }
    let nc = arr_2d[0].len();
    if nc == 0 {
        return Err(MatrixError::DimensionMismatch);
    }
    let mut i: usize = 1;
    while i < nr
        invariant
            1 <= i <= nr,
            nr == arr_2d@.len(),
            nc == arr_2d@[0]@.len(),
            nc >= 1,
            forall|k: int| 0 <= k < i ==> (#[trigger] arr_2d@[k])@.len() == nc,
        decreases nr - i,
    {
        if arr_2d[i].len() != nc {
            return Err(MatrixError::DimensionMismatch);
        }
        i += 1;
    }
    let mut rows: Vec<Vec<Rational>> = Vec::new();
    let mut i: usize = 0;
    while i < nr
        invariant
            i <= nr,
            nr == arr_2d@.len(),
            nc == arr_2d@[0]@.len(),
            texts_rectangular(arr_2d@),
            rows@.len() == i,
            forall|k: int| 0 <= k < i ==> (#[trigger] rows@[k])@.len() == nc,
            forall|k: int| 0 <= k < i ==> row_wf(#[trigger] rows@[k]@),
            forall|k: int, l: int|
                0 <= k < i && 0 <= l < nc ==> Some((#[trigger] rows@[k]@[l])@) == parsed_value(
                    arr_2d@[k]@[l]@,
                ),
        decreases nr - i,
    {
        let mut row: Vec<Rational> = Vec::new();
        let mut j: usize = 0;
        while j < nc
            invariant
                j <= nc,
                i < nr,
                nr == arr_2d@.len(),
                nc == arr_2d@[0]@.len(),
                texts_rectangular(arr_2d@),
                row@.len() == j,
                row_wf(row@),
                forall|l: int|
                    0 <= l < j ==> Some((#[trigger] row@[l])@) == parsed_value(
                        arr_2d@[i as int]@[l]@,
                    ),
            decreases nc - j,
        {
            match Rational::parse(arr_2d[i][j]) {
                Some(x) => {
                    row.push(x);
                },
                None => {
                    assert(parsed_value(arr_2d@[i as int]@[j as int]@).is_none());
                    return Err(MatrixError::Malformed);
                },
            }
            j += 1;
        }
        rows.push(row);
        i += 1;
    }
    let m = Matrix { rows };
    proof {
        assert forall|k: int, l: int|
            0 <= k < arr_2d@.len() && 0 <= l < arr_2d@[k]@.len() implies parsed_value(
            (#[trigger] arr_2d@[k]@[l])@,
        ).is_some() by {
            assert(Some(m.rows@[k]@[l]@) == parsed_value(arr_2d@[k]@[l]@));
        }
    }
    Ok(m)
}

} // verus!
