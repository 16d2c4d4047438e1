//! Matrix inversion by Gauss–Jordan elimination.
//!
//! The matrix to invert is reduced to the identity by elementary row
//! operations; the same operations, applied to an identity matrix, turn that
//! matrix into the inverse.

use crate::error::MatrixError;
use crate::linalg::dot;
use crate::linalg::invertible;
use crate::linalg::is_inverse_of;
use crate::linalg::is_square;
use crate::linalg::kronecker;
use crate::linalg::lemma_cancel_row_scale;
use crate::linalg::lemma_cancel_row_scale_add;
use crate::linalg::lemma_cancel_row_swap;
use crate::linalg::lemma_dot_prefix_two_changes;
use crate::linalg::lemma_dot_prefix_unit;
use crate::linalg::lemma_dot_prefix_zero;
use crate::linalg::lemma_inverse_involution;
use crate::linalg::lemma_inverse_is_the_inverse;
use crate::linalg::lemma_mat_vec_assoc;
use crate::linalg::lemma_product_identity_left;
use crate::linalg::lemma_product_identity_right;
use crate::linalg::lemma_product_row_scale;
use crate::linalg::lemma_product_row_scale_add;
use crate::linalg::lemma_product_row_swap;
use crate::linalg::mat_col_axpy;
use crate::linalg::mat_col_scale;
use crate::linalg::mat_col_swap;
use crate::linalg::mat_identity;
use crate::linalg::mat_inverse;
use crate::linalg::mat_product;
use crate::linalg::mat_row_scale;
use crate::linalg::mat_row_scale_add;
use crate::linalg::mat_row_swap;
use crate::linalg::mat_vec;
use crate::linalg::vec_zero;
use crate::matrix::Matrix;
use crate::matrix::identity;
use crate::matrix::lemma_view_shape;
use crate::matrix::row_scale;
use crate::matrix::row_scale_add;
use crate::matrix::row_swap;
use crate::rational::Rational;
use vstd::prelude::*;

verus! {

/// The state of an elimination: the matrix being reduced, the accumulator
/// that receives the same row operations, and, for the proof only, the
/// matrix being inverted and the product of the inverses of the operations
/// carried out so far.
struct Elimination {
    work: Matrix,
    acc: Matrix,
    undo: Ghost<Seq<Seq<real>>>,
    target: Ghost<Seq<Seq<real>>>,
}

impl Elimination {
    /// The size of the square matrices involved.
    spec fn size(&self) -> nat {
        self.work.nrows()
    }

    /// What every elementary operation preserves: the working matrix is the
    /// accumulator times the target, the bookkeeping matrix times the working
    /// matrix is the target, and the bookkeeping matrix times the accumulator
    /// is the identity.
    spec fn linked(&self) -> bool {
        let n = self.size();
        &&& n >= 1
        &&& self.work.wf()
        &&& self.acc.wf()
        &&& self.work.ncols() == n
        &&& self.acc.nrows() == n
        &&& self.acc.ncols() == n
        &&& is_square(self.undo@, n)
        &&& is_square(self.target@, n)
        &&& self.work@ == mat_product(self.acc@, self.target@)
        &&& mat_product(self.undo@, self.work@) == self.target@
        &&& mat_product(self.undo@, self.acc@) == mat_identity(n)
    }

    /// Sets out to invert the square matrix `a`.
    #[verifier::spinoff_prover]
    fn start(a: &Matrix) -> (st: Elimination)
        requires
            a.wf(),
            a.nrows() == a.ncols(),
        ensures
            st.linked(),
            st.size() == a.nrows(),
            st.target@ == a@,
            st.work@ == a@,
    {
        let n = a.row_count();
        let work = a.duplicate();
        let acc = identity(n);
        proof {
            lemma_view_shape(a);
            lemma_view_shape(&acc);
            lemma_product_identity_left(a@, n as nat);
            lemma_product_identity_left(mat_identity(n as nat), n as nat);
        }
        Elimination { work, acc, undo: Ghost(mat_identity(n as nat)), target: Ghost(a@) }
    }

    /// Adds `sc` times row `i` to row `j`.
    #[verifier::spinoff_prover]
    fn combine(&mut self, i: usize, sc: &Rational, j: usize)
        requires
            old(self).linked(),
            i < old(self).size(),
            j < old(self).size(),
            i != j,
            sc.wf(),
        ensures
            final(self).linked(),
            final(self).size() == old(self).size(),
            final(self).target@ == old(self).target@,
            final(self).work@ == mat_row_scale_add(old(self).work@, i as int, sc@, j as int),
    {
        let ghost before = *self;
        row_scale_add(&mut self.work, i, sc, j);
        row_scale_add(&mut self.acc, i, sc, j);
        proof {
            self.undo@ = mat_col_axpy(before.undo@, i as int, -sc@, j as int);
            lemma_view_shape(&before.work);
            lemma_view_shape(&before.acc);
            lemma_product_row_scale_add(before.acc@, before.target@, i as int, sc@, j as int);
            lemma_cancel_row_scale_add(before.undo@, before.work@, i as int, sc@, j as int);
            lemma_cancel_row_scale_add(before.undo@, before.acc@, i as int, sc@, j as int);
        }
    }

    /// Exchanges rows `i` and `j`.
    #[verifier::spinoff_prover]
    fn exchange(&mut self, i: usize, j: usize)
        requires
            old(self).linked(),
            i < old(self).size(),
            j < old(self).size(),
            i != j,
        ensures
            final(self).linked(),
            final(self).size() == old(self).size(),
            final(self).target@ == old(self).target@,
            final(self).work@ == mat_row_swap(old(self).work@, i as int, j as int),
    {
        let ghost before = *self;
        row_swap(&mut self.work, i, j);
        row_swap(&mut self.acc, i, j);
        proof {
            self.undo@ = mat_col_swap(before.undo@, i as int, j as int);
            lemma_view_shape(&before.work);
            lemma_view_shape(&before.acc);
            lemma_product_row_swap(before.acc@, before.target@, i as int, j as int);
            lemma_cancel_row_swap(before.undo@, before.work@, i as int, j as int);
            lemma_cancel_row_swap(before.undo@, before.acc@, i as int, j as int);
        }
    }

    /// Multiplies row `i` by the non-zero number `sc`.
    #[verifier::spinoff_prover]
    fn scale(&mut self, i: usize, sc: &Rational)
        requires
            old(self).linked(),
            i < old(self).size(),
            sc.wf(),
            sc@ != 0real,
        ensures
            final(self).linked(),
            final(self).size() == old(self).size(),
            final(self).target@ == old(self).target@,
            final(self).work@ == mat_row_scale(old(self).work@, i as int, sc@),
    {
        let ghost before = *self;
        row_scale(&mut self.work, i, sc);
        row_scale(&mut self.acc, i, sc);
        proof {
            self.undo@ = mat_col_scale(before.undo@, i as int, 1real / sc@);
            lemma_view_shape(&before.work);
            lemma_view_shape(&before.acc);
            lemma_product_row_scale(before.acc@, before.target@, i as int, sc@);
            lemma_cancel_row_scale(before.undo@, before.work@, i as int, sc@);
            lemma_cancel_row_scale(before.undo@, before.acc@, i as int, sc@);
        }
    }
}

/// Below the diagonal, the first `upto` columns of `m` hold only zeros.
pub open spec fn lower_cleared(m: Seq<Seq<real>>, n: nat, upto: int) -> bool {
    forall|r: int, c: int| 0 <= c < upto && c < r < n ==> #[trigger] m[r][c] == 0real
}

/// The first `upto` diagonal entries of `m` are not zero.
pub open spec fn diagonal_nonzero(m: Seq<Seq<real>>, upto: int) -> bool {
    forall|c: int| 0 <= c < upto ==> #[trigger] m[c][c] != 0real
}

/// From column `from` on, the columns of `m` are those of the identity.
pub open spec fn unit_columns_from(m: Seq<Seq<real>>, n: nat, from: int) -> bool {
    forall|r: int, c: int| 0 <= r < n && from <= c < n ==> #[trigger] m[r][c] == kronecker(r, c)
}

/// Rows `from` up to `to` of `m` hold zero in column `col`.
pub open spec fn column_cleared(m: Seq<Seq<real>>, col: int, from: int, to: int) -> bool {
    forall|r: int| from <= r < to ==> (#[trigger] m[r])[col] == 0real
}

/// Zero times anything is zero.
#[verifier::spinoff_prover]
pub proof fn lemma_mul_zero(s: real)
    ensures
        s * 0real == 0real,
        0real * s == 0real,
{
    assert(s * 0real == 0real) by (nonlinear_arith);
    assert(0real * s == 0real) by (nonlinear_arith);
}

/// Subtracting `x`/`p` times `p` from `x` leaves zero.
#[verifier::spinoff_prover]
pub proof fn lemma_eliminate(x: real, p: real)
    requires
        p != 0real,
    ensures
        x + (-(x / p)) * p == 0real,
{
    assert(x + (-(x / p)) * p == 0real) by (nonlinear_arith)
        requires
            p != 0real,
    ;
}

/// A non-zero number times its reciprocal is one.
#[verifier::spinoff_prover]
pub proof fn lemma_reciprocal(p: real)
    requires
        p != 0real,
    ensures
        (1real / p) * p == 1real,
        1real / p != 0real,
{
    assert((1real / p) * p == 1real) by (nonlinear_arith)
        requires
            p != 0real,
    ;
    assert(1real / p != 0real) by (nonlinear_arith)
        requires
            p != 0real,
    ;
}

/// Bringing a row with a non-zero entry in column `i` up to row `i` keeps
/// the columns before `i` cleared.
#[verifier::spinoff_prover]
pub proof fn lemma_forward_swap(m: Seq<Seq<real>>, n: nat, i: int, p: int)
    requires
        is_square(m, n),
        0 <= i < p < n,
        lower_cleared(m, n, i),
        diagonal_nonzero(m, i),
        m[p][i] != 0real,
    ensures
        is_square(mat_row_swap(m, i, p), n),
        lower_cleared(mat_row_swap(m, i, p), n, i),
        diagonal_nonzero(mat_row_swap(m, i, p), i + 1),
{
    let m2 = mat_row_swap(m, i, p);
    assert forall|r: int, c: int| 0 <= c < i && c < r < n implies #[trigger] m2[r][c] == 0real by {
        if r == i {
            assert(m2[r][c] == m[p][c]);
        } else if r == p {
            assert(m2[r][c] == m[i][c]);
        } else {
            assert(m2[r][c] == m[r][c]);
        }
    }
    assert forall|c: int| 0 <= c < i + 1 implies #[trigger] m2[c][c] != 0real by {
        if c < i {
            assert(m2[c][c] == m[c][c]);
        }
    }
}

/// One step of forward elimination clears column `i` in row `j` and leaves
/// what was cleared before as it was.
#[verifier::spinoff_prover]
pub proof fn lemma_forward_step(m: Seq<Seq<real>>, n: nat, i: int, j: int, s: real)
    requires
        is_square(m, n),
        0 <= i < j < n,
        lower_cleared(m, n, i),
        diagonal_nonzero(m, i + 1),
        column_cleared(m, i, i + 1, j),
        s == -(m[j][i] / m[i][i]),
    ensures
        is_square(mat_row_scale_add(m, i, s, j), n),
        lower_cleared(mat_row_scale_add(m, i, s, j), n, i),
        diagonal_nonzero(mat_row_scale_add(m, i, s, j), i + 1),
        column_cleared(mat_row_scale_add(m, i, s, j), i, i + 1, j + 1),
{
    let m2 = mat_row_scale_add(m, i, s, j);
    lemma_mul_zero(s);
    assert(m[i][i] != 0real);
    lemma_eliminate(m[j][i], m[i][i]);
    assert forall|r: int, c: int| 0 <= c < i && c < r < n implies #[trigger] m2[r][c] == 0real by {
        if r == j {
            assert(m[j][c] == 0real);
            assert(m[i][c] == 0real);
            assert(m2[j][c] == m[j][c] + s * m[i][c]);
        } else {
            assert(m2[r][c] == m[r][c]);
        }
    }
    assert forall|c: int| 0 <= c < i + 1 implies #[trigger] m2[c][c] != 0real by {
        assert(m2[c] == m[c]);
        assert(m[c][c] != 0real);
    }
    assert forall|r: int| i + 1 <= r < j + 1 implies (#[trigger] m2[r])[i] == 0real by {
        if r == j {
            assert(m2[j][i] == m[j][i] + s * m[i][i]);
        } else {
            assert(m2[r] == m[r]);
            assert(m[r][i] == 0real);
        }
    }
}

/// One step of back substitution clears column `p` in row `j` above the
/// diagonal and changes nothing else in that row.
#[verifier::spinoff_prover]
pub proof fn lemma_back_step(m: Seq<Seq<real>>, n: nat, p: int, j: int, s: real)
    requires
        is_square(m, n),
        0 <= j < p < n,
        lower_cleared(m, n, n as int),
        diagonal_nonzero(m, n as int),
        unit_columns_from(m, n, p + 1),
        column_cleared(m, p, j + 1, p),
        s == -(m[j][p] / m[p][p]),
    ensures
        is_square(mat_row_scale_add(m, p, s, j), n),
        lower_cleared(mat_row_scale_add(m, p, s, j), n, n as int),
        diagonal_nonzero(mat_row_scale_add(m, p, s, j), n as int),
        unit_columns_from(mat_row_scale_add(m, p, s, j), n, p + 1),
        column_cleared(mat_row_scale_add(m, p, s, j), p, j, p),
{
    let m2 = mat_row_scale_add(m, p, s, j);
    lemma_mul_zero(s);
    assert(m[p][p] != 0real);
    lemma_eliminate(m[j][p], m[p][p]);
    assert forall|c: int| 0 <= c < n && c != p implies m2[j][c] == m[j][c] by {
        assert(m2[j][c] == m[j][c] + s * m[p][c]);
        if c < p {
            assert(m[p][c] == 0real);
        } else {
            assert(m[p][c] == kronecker(p, c));
        }
    }
    assert(m2[j][p] == m[j][p] + s * m[p][p]);
    assert forall|r: int, c: int| 0 <= c < n && c < r < n implies #[trigger] m2[r][c] == 0real by {
        if r == j {
            assert(m[j][c] == 0real);
        } else {
            assert(m2[r] == m[r]);
            assert(m[r][c] == 0real);
        }
    }
    assert forall|c: int| 0 <= c < n implies #[trigger] m2[c][c] != 0real by {
        if c == j {
            assert(m[j][j] != 0real);
        } else {
            assert(m2[c] == m[c]);
            assert(m[c][c] != 0real);
        }
    }
    assert forall|r: int, c: int| 0 <= r < n && p + 1 <= c < n implies #[trigger] m2[r][c]
        == kronecker(r, c) by {
        if r == j {
            assert(m[j][c] == kronecker(j, c));
        } else {
            assert(m2[r] == m[r]);
            assert(m[r][c] == kronecker(r, c));
        }
    }
    assert forall|r: int| j <= r < p implies (#[trigger] m2[r])[p] == 0real by {
        if r != j {
            assert(m2[r] == m[r]);
            assert(m[r][p] == 0real);
        }
    }
}

/// Dividing row `p` by its diagonal entry, once column `p` is cleared above
/// the diagonal, turns column `p` into a column of the identity.
#[verifier::spinoff_prover]
pub proof fn lemma_back_scale(m: Seq<Seq<real>>, n: nat, p: int, s: real)
    requires
        is_square(m, n),
        0 <= p < n,
        lower_cleared(m, n, n as int),
        diagonal_nonzero(m, n as int),
        unit_columns_from(m, n, p + 1),
        column_cleared(m, p, 0, p),
        s == 1real / m[p][p],
    ensures
        is_square(mat_row_scale(m, p, s), n),
        lower_cleared(mat_row_scale(m, p, s), n, n as int),
        diagonal_nonzero(mat_row_scale(m, p, s), n as int),
        unit_columns_from(mat_row_scale(m, p, s), n, p),
{
    let m2 = mat_row_scale(m, p, s);
    lemma_mul_zero(s);
    assert(m[p][p] != 0real);
    lemma_reciprocal(m[p][p]);
    assert forall|c: int| 0 <= c < n implies m2[p][c] == kronecker(p, c) by {
        assert(m2[p][c] == s * m[p][c]);
        if c < p {
            assert(m[p][c] == 0real);
        } else if c > p {
            assert(m[p][c] == kronecker(p, c));
        }
    }
    assert forall|r: int, c: int| 0 <= c < n && c < r < n implies #[trigger] m2[r][c] == 0real by {
        if r != p {
            assert(m2[r] == m[r]);
            assert(m[r][c] == 0real);
        }
    }
    assert forall|c: int| 0 <= c < n implies #[trigger] m2[c][c] != 0real by {
        if c != p {
            assert(m2[c] == m[c]);
            assert(m[c][c] != 0real);
        }
    }
    assert forall|r: int, c: int| 0 <= r < n && p <= c < n implies #[trigger] m2[r][c]
        == kronecker(r, c) by {
        if r != p {
            assert(m2[r] == m[r]);
            if c == p {
                if r < p {
                    assert(m[r][p] == 0real);
                } else {
                    assert(m[r][p] == 0real);
                }
            } else {
                assert(m[r][c] == kronecker(r, c));
            }
        }
    }
}

/// Changing one entry of the right-hand vector changes an inner product by
/// the change of the one product at that position.
#[verifier::spinoff_prover]
pub proof fn lemma_dot_update(u: Seq<real>, w: Seq<real>, c: int, x: real)
    requires
        0 <= c < u.len(),
        u.len() == w.len(),
    ensures
        dot(u, w.update(c, x)) == dot(u, w) + u[c] * x - u[c] * w[c],
{
    let w2 = w.update(c, x);
    assert forall|k: int| 0 <= k < u.len() && k != c && k != -1 implies u[k] * w[k] == u[k]
        * w2[k] by {
        assert(w2[k] == w[k]);
    }
    lemma_dot_prefix_two_changes(u, w, u, w2, c, -1, u.len());
}

/// Solving `x`·`p` = −`d` for `x`.
#[verifier::spinoff_prover]
pub proof fn lemma_solve(d: real, p: real)
    requires
        p != 0real,
    ensures
        d + p * (-(d / p)) - p * 0real == 0real,
{
    assert(d + p * (-(d / p)) - p * 0real == 0real) by (nonlinear_arith)
        requires
            p != 0real,
    ;
}

/// If elimination is stuck at column `i`, some non-zero vector is sent to
/// zero by the matrix: entry `i` of the vector is one and the entries before
/// it are found by back substitution. The vector returned solves the rows
/// from `c` on.
#[verifier::spinoff_prover]
pub proof fn lemma_kernel_vector(m: Seq<Seq<real>>, n: nat, i: int, c: int) -> (w: Seq<real>)
    requires
        is_square(m, n),
        0 <= c <= i < n,
        lower_cleared(m, n, i),
        diagonal_nonzero(m, i),
        column_cleared(m, i, i, n as int),
    ensures
        w.len() == n,
        w[i] == 1real,
        forall|k: int| 0 <= k < c ==> w[k] == 0real,
        forall|k: int| i < k < n ==> w[k] == 0real,
        forall|r: int| c <= r < n ==> dot(#[trigger] m[r], w) == 0real,
    decreases i - c,
{
    if c == i {
        let w = Seq::new(n, |k: int| kronecker(k, i));
        assert forall|r: int| c <= r < n implies dot(#[trigger] m[r], w) == 0real by {
            lemma_dot_prefix_unit(m[r], w, i, n);
            assert(m[r][i] == 0real);
        }
        w
    } else {
        let w0 = lemma_kernel_vector(m, n, i, c + 1);
        let d = dot(m[c], w0);
        let x = -(d / m[c][c]);
        let w = w0.update(c, x);
        assert(m[c][c] != 0real);
        assert forall|r: int| c <= r < n implies dot(#[trigger] m[r], w) == 0real by {
            lemma_dot_update(m[r], w0, c, x);
            if r == c {
                lemma_solve(d, m[c][c]);
            } else {
                assert(m[r][c] == 0real);
                lemma_mul_zero(x);
                lemma_mul_zero(w0[c]);
            }
        }
        w
    }
}

/// A matrix that sends a non-zero vector to zero has no inverse, and neither
/// has any matrix obtained from it by multiplying from the left.
#[verifier::spinoff_prover]
pub proof fn lemma_kernel_excludes_inverse(
    target: Seq<Seq<real>>,
    undo: Seq<Seq<real>>,
    m: Seq<Seq<real>>,
    w: Seq<real>,
    i: int,
)
    requires
        m.len() >= 1,
        is_square(m, m.len()),
        is_square(undo, m.len()),
        mat_product(undo, m) == target,
        w.len() == m.len(),
        0 <= i < m.len(),
        w[i] == 1real,
        forall|r: int| 0 <= r < m.len() ==> dot(#[trigger] m[r], w) == 0real,
    ensures
        !invertible(target),
{
    let n = m.len();
    if invertible(target) {
        let x = choose|x: Seq<Seq<real>>| is_inverse_of(x, target);
        assert(target.len() == n);
        let z = mat_vec(m, w);
        assert(z =~= vec_zero(n));
        lemma_mat_vec_assoc(undo, m, w);
        let tw = mat_vec(target, w);
        assert forall|r: int| 0 <= r < n implies tw[r] == 0real by {
            lemma_dot_prefix_zero(undo[r], z, n);
        }
        assert(tw =~= vec_zero(n));
        lemma_mat_vec_assoc(x, target, w);
        let xtw = mat_vec(mat_product(x, target), w);
        lemma_dot_prefix_zero(x[i], tw, n);
        assert(xtw[i] == 0real);
        lemma_dot_prefix_unit(w, mat_identity(n)[i], i, n);
        assert(xtw[i] == w[i]);
    }
}

/// If elimination is stuck at column `i`, the matrix being inverted has no
/// inverse.
#[verifier::spinoff_prover]
pub proof fn lemma_stuck_is_singular(
    target: Seq<Seq<real>>,
    undo: Seq<Seq<real>>,
    m: Seq<Seq<real>>,
    n: nat,
    i: int,
)
    requires
        is_square(m, n),
        is_square(undo, n),
        mat_product(undo, m) == target,
        0 <= i < n,
        lower_cleared(m, n, i),
        diagonal_nonzero(m, i),
        column_cleared(m, i, i, n as int),
    ensures
        !invertible(target),
{
    let w = lemma_kernel_vector(m, n, i, 0);
    lemma_kernel_excludes_inverse(target, undo, m, w, i);
}

/// The first row from `col` down with a non-zero entry in column `col`, if
/// there is one.
#[verifier::spinoff_prover]
pub fn find_pivot(work: &Matrix, col: usize) -> (r: Option<usize>)
    requires
        work.wf(),
        work.nrows() == work.ncols(),
        col < work.nrows(),
    ensures
        match r {
            Some(p) => col <= p < work.nrows() && work@[p as int][col as int] != 0real
                && column_cleared(work@, col as int, col as int, p as int),
            None => column_cleared(work@, col as int, col as int, work.nrows() as int),
        },
{
    let n = work.row_count();
    let mut p: usize = col;
    while p < n
        invariant
            col <= p <= n,
            work.wf(),
            n == work.nrows(),
            n == work.ncols(),
            column_cleared(work@, col as int, col as int, p as int),
        decreases n - p,
    {
        let x = work.entry(p, col);
        if !x.is_zero() {
            return Some(p);
        }
        p += 1;
    }
    None
}

/// Forward elimination: column by column, brings a non-zero entry onto the
/// diagonal and clears the column below it. Returns `false` if some column
/// has no non-zero entry on or below the diagonal.
#[verifier::spinoff_prover]
fn forward_eliminate(st: &mut Elimination) -> (ok: bool)
    requires
        old(st).linked(),
    ensures
        final(st).linked(),
        final(st).size() == old(st).size(),
        final(st).target@ == old(st).target@,
        ok ==> lower_cleared(final(st).work@, final(st).size(), final(st).size() as int)
            && diagonal_nonzero(final(st).work@, final(st).size() as int),
        !ok ==> !invertible(old(st).target@),
{
    let n = st.work.row_count();
    let mut i: usize = 0;
    while i < n
        invariant
            i <= n,
            st.linked(),
            st.size() == n,
            n == old(st).size(),
            st.target@ == old(st).target@,
            lower_cleared(st.work@, n as nat, i as int),
            diagonal_nonzero(st.work@, i as int),
        decreases n - i,
    {
        proof {
            lemma_view_shape(&st.work);
        }
        match find_pivot(&st.work, i) {
            None => {
                proof {
                    lemma_stuck_is_singular(st.target@, st.undo@, st.work@, n as nat, i as int);
                }
                return false;
            },
            Some(p) => {
                if p != i {
                    proof {
                        lemma_forward_swap(st.work@, n as nat, i as int, p as int);
                    }
                    st.exchange(i, p);
                }
            },
        }
        let mut j: usize = i + 1;
        while j < n
            invariant
                i < j <= n,
                st.linked(),
                st.size() == n,
                n == old(st).size(),
                st.target@ == old(st).target@,
                lower_cleared(st.work@, n as nat, i as int),
                diagonal_nonzero(st.work@, i + 1),
                column_cleared(st.work@, i as int, i + 1, j as int),
            decreases n - j,
        {
            proof {
                lemma_view_shape(&st.work);
            }
            let num = st.work.entry(j, i);
            let den = st.work.entry(i, i);
            let sc = num.div(&den).neg();
            proof {
                lemma_forward_step(st.work@, n as nat, i as int, j as int, sc@);
            }
            st.combine(i, &sc, j);
            j += 1;
        }
        proof {
            assert forall|r: int, c: int| 0 <= c < i + 1 && c < r < n implies #[trigger] st.work@[r][c]
                == 0real by {
                if c == i {
                    assert(st.work@[r][i as int] == 0real);
                }
            }
        }
        i += 1;
    }
    true
}

/// Back substitution: from the last column to the first, clears the column
/// above the diagonal and divides the row by its diagonal entry, which
/// leaves the identity.
#[verifier::spinoff_prover]
fn back_substitute(st: &mut Elimination)
    requires
        old(st).linked(),
        lower_cleared(old(st).work@, old(st).size(), old(st).size() as int),
        diagonal_nonzero(old(st).work@, old(st).size() as int),
    ensures
        final(st).linked(),
        final(st).size() == old(st).size(),
        final(st).target@ == old(st).target@,
        final(st).work@ == mat_identity(final(st).size()),
{
    let n = st.work.row_count();
    let mut i: usize = n;
    while i > 0
        invariant
            i <= n,
            st.linked(),
            st.size() == n,
            n == old(st).size(),
            st.target@ == old(st).target@,
            lower_cleared(st.work@, n as nat, n as int),
            diagonal_nonzero(st.work@, n as int),
            unit_columns_from(st.work@, n as nat, i as int),
        decreases i,
    {
        i -= 1;
        let mut j: usize = i;
        while j > 0
            invariant
                j <= i < n,
                st.linked(),
                st.size() == n,
                n == old(st).size(),
                st.target@ == old(st).target@,
                lower_cleared(st.work@, n as nat, n as int),
                diagonal_nonzero(st.work@, n as int),
                unit_columns_from(st.work@, n as nat, i + 1),
                column_cleared(st.work@, i as int, j as int, i as int),
            decreases j,
        {
            j -= 1;
            proof {
                lemma_view_shape(&st.work);
            }
            let num = st.work.entry(j, i);
            let den = st.work.entry(i, i);
            let sc = num.div(&den).neg();
            proof {
                lemma_back_step(st.work@, n as nat, i as int, j as int, sc@);
            }
            st.combine(i, &sc, j);
        }
        proof {
            lemma_view_shape(&st.work);
        }
        let sc = st.work.entry(i, i).recip();
        proof {
            lemma_reciprocal(st.work@[i as int][i as int]);
            lemma_back_scale(st.work@, n as nat, i as int, sc@);
        }
        st.scale(i, &sc);
    }
    proof {
        lemma_view_shape(&st.work);
        assert(st.work@ =~~= mat_identity(n as nat));
    }
}

/// The inverse of `a`, by Gauss–Jordan elimination.
///
/// Fails with `DimensionMismatch` if `a` is not square and with
/// `SingularMatrix` if `a` is square but has no inverse.
#[verifier::spinoff_prover]
pub fn inverse(a: &Matrix) -> (r: Result<Matrix, MatrixError>)
    requires
        a.wf(),
    ensures
        r.is_ok() <==> a.nrows() == a.ncols() && invertible(a@),
        r == Err::<Matrix, MatrixError>(MatrixError::DimensionMismatch) <==> a.nrows() != a.ncols(),
        r == Err::<Matrix, MatrixError>(MatrixError::SingularMatrix) <==> a.nrows() == a.ncols()
            && !invertible(a@),
        r.is_ok() ==> {
            let m = r.unwrap();
            &&& m.wf()
            &&& m.nrows() == a.nrows()
            &&& m.ncols() == a.ncols()
            &&& m@ == mat_inverse(a@)
            &&& mat_product(m@, a@) == mat_identity(a.nrows())
            &&& mat_product(a@, m@) == mat_identity(a.nrows())
        },
{
    if a.row_count() != a.col_count() {
        return Err(MatrixError::DimensionMismatch);
    }
    let mut st = Elimination::start(a);
    if !forward_eliminate(&mut st) {
        return Err(MatrixError::SingularMatrix);
    }
    back_substitute(&mut st);
    proof {
        let n = a.nrows();
        lemma_view_shape(&st.acc);
        lemma_product_identity_right(st.undo@, n);
        assert(st.undo@ == a@);
        assert(is_inverse_of(st.acc@, a@));
        lemma_inverse_is_the_inverse(st.acc@, a@);
    }
    Ok(st.acc)
}

/// The product of an invertible matrix and its inverse, in either order, is
/// the identity.
pub proof fn lemma_inverse_cancels(m: &Matrix)
    requires
        m.wf(),
        m.nrows() == m.ncols(),
        invertible(m@),
    ensures
        mat_product(m@, mat_inverse(m@)) == mat_identity(m.nrows()),
        mat_product(mat_inverse(m@), m@) == mat_identity(m.nrows()),
{
    lemma_view_shape(m);
    assert(is_inverse_of(mat_inverse(m@), m@));
}

/// The inverse of an invertible matrix is invertible, and its inverse is the
/// matrix itself.
pub proof fn lemma_inverse_of_inverse(m: &Matrix)
    requires
        m.wf(),
        m.nrows() == m.ncols(),
        invertible(m@),
    ensures
        invertible(mat_inverse(m@)),
        mat_inverse(mat_inverse(m@)) == m@,
{
    lemma_view_shape(m);
    lemma_inverse_involution(m@);
}

} // verus!
