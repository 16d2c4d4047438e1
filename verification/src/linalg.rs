//! The mathematics of matrices over the reals, as used in contracts.
//!
//! A matrix is a sequence of rows, each a sequence of reals. Nothing here is
//! executable; the functions say what the executable kernel computes and the
//! lemmas are the algebra its proofs rest on.

use vstd::prelude::*;

verus! {

/// `m` has `rows` rows of `cols` entries each.
pub open spec fn is_matrix(m: Seq<Seq<real>>, rows: nat, cols: nat) -> bool {
    &&& m.len() == rows
    &&& forall|i: int| 0 <= i < rows ==> (#[trigger] m[i]).len() == cols
}

/// `m` is a square matrix of size `n`.
pub open spec fn is_square(m: Seq<Seq<real>>, n: nat) -> bool {
    is_matrix(m, n, n)
}

/// The sum of the products of the first `n` entries of `u` and `v`.
pub open spec fn dot_prefix(u: Seq<real>, v: Seq<real>, n: nat) -> real
    decreases n,
{
    if n == 0 {
        0real
    } else {
        dot_prefix(u, v, (n - 1) as nat) + u[n - 1] * v[n - 1]
    }
}

/// The inner product of `u` with a vector `v` of at least the same length.
pub open spec fn dot(u: Seq<real>, v: Seq<real>) -> real {
    dot_prefix(u, v, u.len())
}

/// The sum of the first `n` entries of `u`.
pub open spec fn sum_prefix(u: Seq<real>, n: nat) -> real
    decreases n,
{
    if n == 0 {
        0real
    } else {
        sum_prefix(u, (n - 1) as nat) + u[n - 1]
    }
}

/// The sum of all entries of `u`.
pub open spec fn sum(u: Seq<real>) -> real {
    sum_prefix(u, u.len())
}

/// Column `j` of `m`, top to bottom.
pub open spec fn column(m: Seq<Seq<real>>, j: int) -> Seq<real> {
    Seq::new(m.len(), |i: int| m[i][j])
}

/// The transpose of a matrix with at least one row.
pub open spec fn mat_transpose(m: Seq<Seq<real>>) -> Seq<Seq<real>> {
    Seq::new(m[0].len(), |j: int| column(m, j))
}

/// The matrix product `a`·`b`: entry (i, j) is the inner product of row i of
/// `a` with column j of `b`.
pub open spec fn mat_product(a: Seq<Seq<real>>, b: Seq<Seq<real>>) -> Seq<Seq<real>> {
    Seq::new(a.len(), |i: int| Seq::new(b[0].len(), |j: int| dot(a[i], column(b, j))))
}

/// The product of `a` with the transpose of `bt`: entry (i, j) is the inner
/// product of row i of `a` with row j of `bt`.
pub open spec fn mat_product_transposed(a: Seq<Seq<real>>, bt: Seq<Seq<real>>) -> Seq<Seq<real>> {
    Seq::new(a.len(), |i: int| Seq::new(bt.len(), |j: int| dot(a[i], bt[j])))
}

/// The entry of the identity matrix at (i, j).
pub open spec fn kronecker(i: int, j: int) -> real {
    if i == j {
        1real
    } else {
        0real
    }
}

/// The identity matrix of size `n`.
pub open spec fn mat_identity(n: nat) -> Seq<Seq<real>> {
    Seq::new(n, |i: int| Seq::new(n, |j: int| kronecker(i, j)))
}

/// The square matrix with `v` on its diagonal and zero elsewhere.
pub open spec fn mat_diagonal(v: Seq<real>) -> Seq<Seq<real>> {
    Seq::new(
        v.len(),
        |i: int|
            Seq::new(
                v.len(),
                |j: int|
                    if i == j {
                        v[i]
                    } else {
                        0real
                    },
            ),
    )
}

/// The column vector whose entry i is the sum of row i of `m`.
pub open spec fn mat_row_sums(m: Seq<Seq<real>>) -> Seq<Seq<real>> {
    Seq::new(m.len(), |i: int| seq![sum(m[i])])
}

/// `u` with every entry multiplied by `s`.
pub open spec fn vec_scale(s: real, u: Seq<real>) -> Seq<real> {
    Seq::new(u.len(), |k: int| s * u[k])
}

/// `u` + `s`·`w`, entry by entry, for `w` at least as long as `u`.
pub open spec fn vec_axpy(u: Seq<real>, s: real, w: Seq<real>) -> Seq<real> {
    Seq::new(u.len(), |k: int| u[k] + s * w[k])
}

/// `m` with row `i` multiplied by `s`.
pub open spec fn mat_row_scale(m: Seq<Seq<real>>, i: int, s: real) -> Seq<Seq<real>> {
    m.update(i, vec_scale(s, m[i]))
}

/// `m` with `s` times row `i` added to row `j`.
pub open spec fn mat_row_scale_add(m: Seq<Seq<real>>, i: int, s: real, j: int) -> Seq<Seq<real>> {
    m.update(j, vec_axpy(m[j], s, m[i]))
}

/// `m` with rows `i` and `j` exchanged.
pub open spec fn mat_row_swap(m: Seq<Seq<real>>, i: int, j: int) -> Seq<Seq<real>> {
    m.update(i, m[j]).update(j, m[i])
}

/// The matrix `m` applied to the column vector `w`.
pub open spec fn mat_vec(m: Seq<Seq<real>>, w: Seq<real>) -> Seq<real> {
    Seq::new(m.len(), |r: int| dot(m[r], w))
}

/// `m` with `s` times column `j` added to column `i`.
pub open spec fn mat_col_axpy(m: Seq<Seq<real>>, i: int, s: real, j: int) -> Seq<Seq<real>> {
    Seq::new(m.len(), |r: int| m[r].update(i, m[r][i] + s * m[r][j]))
}

/// `m` with columns `i` and `j` exchanged.
pub open spec fn mat_col_swap(m: Seq<Seq<real>>, i: int, j: int) -> Seq<Seq<real>> {
    Seq::new(m.len(), |r: int| m[r].update(i, m[r][j]).update(j, m[r][i]))
}

/// `m` with column `i` multiplied by `s`.
pub open spec fn mat_col_scale(m: Seq<Seq<real>>, i: int, s: real) -> Seq<Seq<real>> {
    Seq::new(m.len(), |r: int| m[r].update(i, s * m[r][i]))
}

/// The vector of `n` zeros.
pub open spec fn vec_zero(n: nat) -> Seq<real> {
    Seq::new(n, |k: int| 0real)
}

/// `x` is a two-sided inverse of the square matrix `m`.
pub open spec fn is_inverse_of(x: Seq<Seq<real>>, m: Seq<Seq<real>>) -> bool {
    &&& is_square(m, m.len())
    &&& is_square(x, m.len())
    &&& mat_product(x, m) == mat_identity(m.len())
    &&& mat_product(m, x) == mat_identity(m.len())
}

/// `m` has a two-sided inverse.
pub open spec fn invertible(m: Seq<Seq<real>>) -> bool {
    exists|x: Seq<Seq<real>>| is_inverse_of(x, m)
}

/// The inverse of an invertible matrix.
pub open spec fn mat_inverse(m: Seq<Seq<real>>) -> Seq<Seq<real>> {
    choose|x: Seq<Seq<real>>| is_inverse_of(x, m)
}

/// If two pairs of vectors have the same products over the first `n`
/// positions, their inner products over that prefix agree.
#[verifier::spinoff_prover]
pub proof fn lemma_dot_prefix_same_terms(
    u: Seq<real>,
    v: Seq<real>,
    u2: Seq<real>,
    v2: Seq<real>,
    n: nat,
)
    requires
        forall|k: int| 0 <= k < n ==> u[k] * v[k] == u2[k] * v2[k],
    ensures
        dot_prefix(u, v, n) == dot_prefix(u2, v2, n),
    decreases n,
{
    if n > 0 {
        lemma_dot_prefix_same_terms(u, v, u2, v2, (n - 1) as nat);
    }
}

/// Changing the factors at positions `i` and `j` only changes the inner
/// product by the change of the two products there.
#[verifier::spinoff_prover]
pub proof fn lemma_dot_prefix_two_changes(
    u: Seq<real>,
    v: Seq<real>,
    u2: Seq<real>,
    v2: Seq<real>,
    i: int,
    j: int,
    n: nat,
)
    requires
        i != j,
        forall|k: int| 0 <= k < n && k != i && k != j ==> u[k] * v[k] == u2[k] * v2[k],
    ensures
        dot_prefix(u2, v2, n) == dot_prefix(u, v, n) + (if 0 <= i < n {
            u2[i] * v2[i] - u[i] * v[i]
        } else {
            0real
        }) + (if 0 <= j < n {
            u2[j] * v2[j] - u[j] * v[j]
        } else {
            0real
        }),
    decreases n,
{
    if n > 0 {
        lemma_dot_prefix_two_changes(u, v, u2, v2, i, j, (n - 1) as nat);
    }
}

/// The inner product is linear in its first argument.
#[verifier::spinoff_prover]
pub proof fn lemma_dot_prefix_axpy(u: Seq<real>, s: real, w: Seq<real>, v: Seq<real>, n: nat)
    requires
        n <= u.len(),
    ensures
        dot_prefix(vec_axpy(u, s, w), v, n) == dot_prefix(u, v, n) + s * dot_prefix(w, v, n),
    decreases n,
{
    if n > 0 {
        lemma_dot_prefix_axpy(u, s, w, v, (n - 1) as nat);
        let k = n - 1;
        let a = dot_prefix(u, v, k as nat);
        let b = dot_prefix(w, v, k as nat);
        assert(vec_axpy(u, s, w)[k] == u[k] + s * w[k]);
        assert((a + s * b) + (u[k] + s * w[k]) * v[k] == (a + u[k] * v[k]) + s * (b + w[k] * v[k]))
            by (nonlinear_arith);
    } else {
        assert(s * 0real == 0real) by (nonlinear_arith);
    }
}

/// Scaling the first argument scales the inner product.
#[verifier::spinoff_prover]
pub proof fn lemma_dot_prefix_scale(s: real, u: Seq<real>, v: Seq<real>, n: nat)
    requires
        n <= u.len(),
    ensures
        dot_prefix(vec_scale(s, u), v, n) == s * dot_prefix(u, v, n),
    decreases n,
{
    if n > 0 {
        lemma_dot_prefix_scale(s, u, v, (n - 1) as nat);
        let k = n - 1;
        let a = dot_prefix(u, v, k as nat);
        assert(vec_scale(s, u)[k] == s * u[k]);
        assert(s * a + (s * u[k]) * v[k] == s * (a + u[k] * v[k])) by (nonlinear_arith);
    } else {
        assert(s * 0real == 0real) by (nonlinear_arith);
    }
}

/// The inner product with a vector that is zero except for a one at position
/// `i` picks out entry `i`.
#[verifier::spinoff_prover]
pub proof fn lemma_dot_prefix_unit(u: Seq<real>, e: Seq<real>, i: int, n: nat)
    requires
        forall|k: int| 0 <= k < n ==> e[k] == kronecker(k, i),
    ensures
        dot_prefix(u, e, n) == (if 0 <= i < n {
            u[i]
        } else {
            0real
        }),
        dot_prefix(e, u, n) == (if 0 <= i < n {
            u[i]
        } else {
            0real
        }),
    decreases n,
{
    if n > 0 {
        lemma_dot_prefix_unit(u, e, i, (n - 1) as nat);
        let k = n - 1;
        assert(u[k] * 0real == 0real) by (nonlinear_arith);
        assert(u[k] * 1real == u[k]) by (nonlinear_arith);
        assert(0real * u[k] == 0real) by (nonlinear_arith);
        assert(1real * u[k] == u[k]) by (nonlinear_arith);
    }
}

/// The two changes that a row operation and the column operation undoing it
/// make to an inner product add up to nothing.
#[verifier::spinoff_prover]
pub proof fn lemma_two_point_cancel(ui: real, uj: real, vi: real, vj: real, s: real)
    ensures
        (ui + (-s) * uj) * vi - ui * vi + (uj * (vj + s * vi) - uj * vj) == 0real,
{
    assert((ui + (-s) * uj) * vi - ui * vi + (uj * (vj + s * vi) - uj * vj) == 0real)
        by (nonlinear_arith);
}

/// The inner product with a vector of zeros is zero.
#[verifier::spinoff_prover]
pub proof fn lemma_dot_prefix_zero(u: Seq<real>, z: Seq<real>, n: nat)
    requires
        forall|k: int| 0 <= k < n ==> z[k] == 0real,
    ensures
        dot_prefix(u, z, n) == 0real,
        dot_prefix(z, u, n) == 0real,
    decreases n,
{
    if n > 0 {
        lemma_dot_prefix_zero(u, z, (n - 1) as nat);
        let k = n - 1;
        assert(u[k] * 0real == 0real) by (nonlinear_arith);
        assert(0real * u[k] == 0real) by (nonlinear_arith);
    }
}

/// Adding a multiple of one row to another in the left factor does the same
/// to the product.
#[verifier::spinoff_prover]
pub proof fn lemma_product_row_scale_add(
    e: Seq<Seq<real>>,
    a: Seq<Seq<real>>,
    i: int,
    s: real,
    j: int,
)
    requires
        is_matrix(e, e.len(), a.len()),
        a.len() >= 1,
        0 <= i < e.len(),
        0 <= j < e.len(),
    ensures
        mat_product(mat_row_scale_add(e, i, s, j), a) == mat_row_scale_add(
            mat_product(e, a),
            i,
            s,
            j,
        ),
{
    let e2 = mat_row_scale_add(e, i, s, j);
    let p = mat_product(e, a);
    let lhs = mat_product(e2, a);
    let rhs = mat_row_scale_add(p, i, s, j);
    assert forall|r: int, c: int| 0 <= r < e.len() && 0 <= c < a[0].len() implies lhs[r][c]
        == rhs[r][c] by {
        if r == j {
            lemma_dot_prefix_axpy(e[j], s, e[i], column(a, c), e[j].len());
            assert(rhs[r][c] == p[j][c] + s * p[i][c]);
        }
    }
    assert(lhs =~~= rhs);
}

/// Exchanging two rows of the left factor exchanges the rows of the product.
#[verifier::spinoff_prover]
pub proof fn lemma_product_row_swap(e: Seq<Seq<real>>, a: Seq<Seq<real>>, i: int, j: int)
    requires
        a.len() >= 1,
        0 <= i < e.len(),
        0 <= j < e.len(),
    ensures
        mat_product(mat_row_swap(e, i, j), a) == mat_row_swap(mat_product(e, a), i, j),
{
    assert(mat_product(mat_row_swap(e, i, j), a) =~~= mat_row_swap(mat_product(e, a), i, j));
}

/// Scaling a row of the left factor scales that row of the product.
#[verifier::spinoff_prover]
pub proof fn lemma_product_row_scale(e: Seq<Seq<real>>, a: Seq<Seq<real>>, i: int, s: real)
    requires
        is_matrix(e, e.len(), a.len()),
        a.len() >= 1,
        0 <= i < e.len(),
    ensures
        mat_product(mat_row_scale(e, i, s), a) == mat_row_scale(mat_product(e, a), i, s),
{
    let e2 = mat_row_scale(e, i, s);
    let p = mat_product(e, a);
    let lhs = mat_product(e2, a);
    let rhs = mat_row_scale(p, i, s);
    assert forall|r: int, c: int| 0 <= r < e.len() && 0 <= c < a[0].len() implies lhs[r][c]
        == rhs[r][c] by {
        if r == i {
            lemma_dot_prefix_scale(s, e[i], column(a, c), e[i].len());
            assert(rhs[r][c] == s * p[i][c]);
        }
    }
    assert(lhs =~~= rhs);
}

/// Adding `s` times row `i` to row `j` in the right factor is undone by
/// subtracting `s` times column `j` from column `i` in the left factor.
#[verifier::spinoff_prover]
pub proof fn lemma_cancel_row_scale_add(
    f: Seq<Seq<real>>,
    y: Seq<Seq<real>>,
    i: int,
    s: real,
    j: int,
)
    requires
        is_matrix(f, f.len(), y.len()),
        is_matrix(y, y.len(), y[0].len()),
        y.len() >= 1,
        0 <= i < y.len(),
        0 <= j < y.len(),
        i != j,
    ensures
        mat_product(mat_col_axpy(f, i, -s, j), mat_row_scale_add(y, i, s, j)) == mat_product(f, y),
{
    let f2 = mat_col_axpy(f, i, -s, j);
    let y2 = mat_row_scale_add(y, i, s, j);
    let lhs = mat_product(f2, y2);
    let rhs = mat_product(f, y);
    assert(y2[0].len() == y[0].len());
    assert forall|r: int, c: int| 0 <= r < f.len() && 0 <= c < y[0].len() implies lhs[r][c]
        == rhs[r][c] by {
        let u = f[r];
        let v = column(y, c);
        let u2 = f2[r];
        let v2 = column(y2, c);
        assert(u2[i] == u[i] + (-s) * u[j]);
        assert(u2[j] == u[j]);
        assert(v2[i] == v[i]);
        assert(v2[j] == v[j] + s * v[i]);
        assert forall|k: int| 0 <= k < u.len() && k != i && k != j implies u[k] * v[k] == u2[k]
            * v2[k] by {
            assert(u2[k] == u[k]);
            assert(v2[k] == v[k]);
        }
        lemma_dot_prefix_two_changes(u, v, u2, v2, i, j, u.len());
        lemma_two_point_cancel(u[i], u[j], v[i], v[j], s);
    }
    assert(lhs =~~= rhs);
}

/// Exchanging two rows of the right factor is undone by exchanging the same
/// two columns of the left factor.
#[verifier::spinoff_prover]
pub proof fn lemma_cancel_row_swap(f: Seq<Seq<real>>, y: Seq<Seq<real>>, i: int, j: int)
    requires
        is_matrix(f, f.len(), y.len()),
        is_matrix(y, y.len(), y[0].len()),
        y.len() >= 1,
        0 <= i < y.len(),
        0 <= j < y.len(),
        i != j,
    ensures
        mat_product(mat_col_swap(f, i, j), mat_row_swap(y, i, j)) == mat_product(f, y),
{
    let f2 = mat_col_swap(f, i, j);
    let y2 = mat_row_swap(y, i, j);
    let lhs = mat_product(f2, y2);
    let rhs = mat_product(f, y);
    assert(y2[0].len() == y[0].len());
    assert forall|r: int, c: int| 0 <= r < f.len() && 0 <= c < y[0].len() implies lhs[r][c]
        == rhs[r][c] by {
        let u = f[r];
        let v = column(y, c);
        let u2 = f2[r];
        let v2 = column(y2, c);
        assert(u2[i] == u[j]);
        assert(u2[j] == u[i]);
        assert(v2[i] == v[j]);
        assert(v2[j] == v[i]);
        assert forall|k: int| 0 <= k < u.len() && k != i && k != j implies u[k] * v[k] == u2[k]
            * v2[k] by {
            assert(u2[k] == u[k]);
            assert(v2[k] == v[k]);
        }
        lemma_dot_prefix_two_changes(u, v, u2, v2, i, j, u.len());
    }
    assert(lhs =~~= rhs);
}

/// Scaling a row of the right factor by a non-zero `s` is undone by dividing
/// the same column of the left factor by `s`.
#[verifier::spinoff_prover]
pub proof fn lemma_cancel_row_scale(f: Seq<Seq<real>>, y: Seq<Seq<real>>, i: int, s: real)
    requires
        is_matrix(f, f.len(), y.len()),
        is_matrix(y, y.len(), y[0].len()),
        y.len() >= 1,
        0 <= i < y.len(),
        s != 0real,
    ensures
        mat_product(mat_col_scale(f, i, 1real / s), mat_row_scale(y, i, s)) == mat_product(f, y),
{
    let f2 = mat_col_scale(f, i, 1real / s);
    let y2 = mat_row_scale(y, i, s);
    let lhs = mat_product(f2, y2);
    let rhs = mat_product(f, y);
    assert(y2[0].len() == y[0].len());
    assert forall|r: int, c: int| 0 <= r < f.len() && 0 <= c < y[0].len() implies lhs[r][c]
        == rhs[r][c] by {
        let u = f[r];
        let v = column(y, c);
        let u2 = f2[r];
        let v2 = column(y2, c);
        assert(u2[i] == (1real / s) * u[i]);
        assert(v2[i] == s * v[i]);
        assert(((1real / s) * u[i]) * (s * v[i]) == u[i] * v[i]) by (nonlinear_arith)
            requires
                s != 0real,
        ;
        assert forall|k: int| 0 <= k < u.len() implies u2[k] * v2[k] == u[k] * v[k] by {
            if k != i {
                assert(u2[k] == u[k]);
                assert(v2[k] == v[k]);
            }
        }
        lemma_dot_prefix_same_terms(u2, v2, u, v, u.len());
    }
    assert(lhs =~~= rhs);
}

/// Multiplying by the identity from the right changes nothing.
#[verifier::spinoff_prover]
pub proof fn lemma_product_identity_right(m: Seq<Seq<real>>, n: nat)
    requires
        is_matrix(m, m.len(), n),
        n >= 1,
    ensures
        mat_product(m, mat_identity(n)) == m,
{
    let p = mat_product(m, mat_identity(n));
    assert forall|r: int, c: int| 0 <= r < m.len() && 0 <= c < n implies p[r][c] == m[r][c] by {
        lemma_dot_prefix_unit(m[r], column(mat_identity(n), c), c, n);
    }
    assert(p =~~= m);
}

/// Multiplying by the identity from the left changes nothing.
#[verifier::spinoff_prover]
pub proof fn lemma_product_identity_left(m: Seq<Seq<real>>, n: nat)
    requires
        is_matrix(m, n, m[0].len()),
        n >= 1,
    ensures
        mat_product(mat_identity(n), m) == m,
{
    let p = mat_product(mat_identity(n), m);
    assert forall|r: int, c: int| 0 <= r < n && 0 <= c < m[0].len() implies p[r][c]
        == m[r][c] by {
        lemma_dot_prefix_unit(column(m, c), mat_identity(n)[r], r, n);
    }
    assert(p =~~= m);
}

/// A row vector times a matrix, then times a column vector, is the row
/// vector times the matrix applied to the column vector.
#[verifier::spinoff_prover]
pub proof fn lemma_dot_exchange(u: Seq<real>, b: Seq<Seq<real>>, w: Seq<real>, n: nat)
    requires
        b.len() >= 1,
        n <= b.len(),
        n <= u.len(),
        is_matrix(b, b.len(), b[0].len()),
    ensures
        dot(Seq::new(b[0].len(), |k: int| dot_prefix(u, column(b, k), n)), w) == dot_prefix(
            u,
            mat_vec(b, w),
            n,
        ),
    decreases n,
{
    let m = b[0].len();
    let cur = Seq::new(m, |k: int| dot_prefix(u, column(b, k), n));
    if n == 0 {
        lemma_dot_prefix_zero(w, cur, m);
    } else {
        let prev = Seq::new(m, |k: int| dot_prefix(u, column(b, k), (n - 1) as nat));
        lemma_dot_exchange(u, b, w, (n - 1) as nat);
        let row = b[n - 1];
        assert(cur =~= vec_axpy(prev, u[n - 1], row)) by {
            assert forall|k: int| 0 <= k < m implies cur[k] == prev[k] + u[n - 1] * row[k] by {
                assert(column(b, k)[n - 1] == row[k]);
            }
        }
        lemma_dot_prefix_axpy(prev, u[n - 1], row, w, m);
        assert(mat_vec(b, w)[n - 1] == dot(row, w));
    }
}

/// Matrix multiplication is associative.
#[verifier::spinoff_prover]
pub proof fn lemma_product_assoc(a: Seq<Seq<real>>, b: Seq<Seq<real>>, c: Seq<Seq<real>>)
    requires
        a.len() >= 1,
        b.len() >= 1,
        c.len() >= 1,
        is_matrix(a, a.len(), b.len()),
        is_matrix(b, b.len(), c.len()),
        is_matrix(c, c.len(), c[0].len()),
    ensures
        mat_product(mat_product(a, b), c) == mat_product(a, mat_product(b, c)),
{
    let ab = mat_product(a, b);
    let bc = mat_product(b, c);
    let lhs = mat_product(ab, c);
    let rhs = mat_product(a, bc);
    assert(bc[0].len() == c[0].len());
    assert forall|i: int, j: int| 0 <= i < a.len() && 0 <= j < c[0].len() implies lhs[i][j]
        == rhs[i][j] by {
        let w = column(c, j);
        lemma_dot_exchange(a[i], b, w, b.len());
        assert(ab[i] =~= Seq::new(b[0].len(), |k: int| dot_prefix(a[i], column(b, k), b.len())));
        assert(column(bc, j) =~= mat_vec(b, w));
    }
    assert(lhs =~~= rhs);
}

/// Applying a product of matrices to a vector is applying the factors one
/// after the other.
#[verifier::spinoff_prover]
pub proof fn lemma_mat_vec_assoc(a: Seq<Seq<real>>, b: Seq<Seq<real>>, w: Seq<real>)
    requires
        b.len() >= 1,
        is_matrix(a, a.len(), b.len()),
        is_matrix(b, b.len(), b[0].len()),
        w.len() == b[0].len(),
    ensures
        mat_vec(mat_product(a, b), w) == mat_vec(a, mat_vec(b, w)),
{
    let ab = mat_product(a, b);
    let lhs = mat_vec(ab, w);
    let rhs = mat_vec(a, mat_vec(b, w));
    assert forall|i: int| 0 <= i < a.len() implies lhs[i] == rhs[i] by {
        lemma_dot_exchange(a[i], b, w, b.len());
        assert(ab[i] =~= Seq::new(b[0].len(), |k: int| dot_prefix(a[i], column(b, k), b.len())));
    }
    assert(lhs =~= rhs);
}

/// A matrix has at most one inverse: a left inverse and a right inverse of
/// the same matrix are equal.
#[verifier::spinoff_prover]
pub proof fn lemma_inverse_unique(x: Seq<Seq<real>>, m: Seq<Seq<real>>, y: Seq<Seq<real>>)
    requires
        m.len() >= 1,
        is_square(m, m.len()),
        is_square(x, m.len()),
        is_square(y, m.len()),
        mat_product(x, m) == mat_identity(m.len()),
        mat_product(m, y) == mat_identity(m.len()),
    ensures
        x == y,
{
    let n = m.len();
    lemma_product_assoc(x, m, y);
    lemma_product_identity_right(x, n);
    lemma_product_identity_left(y, n);
}

/// A two-sided inverse of a matrix is its inverse.
#[verifier::spinoff_prover]
pub proof fn lemma_inverse_is_the_inverse(x: Seq<Seq<real>>, m: Seq<Seq<real>>)
    requires
        m.len() >= 1,
        is_inverse_of(x, m),
    ensures
        invertible(m),
        mat_inverse(m) == x,
{
    let y = mat_inverse(m);
    assert(is_inverse_of(y, m));
    lemma_inverse_unique(x, m, y);
}

/// A matrix is the inverse of its inverse.
#[verifier::spinoff_prover]
pub proof fn lemma_inverse_involution(m: Seq<Seq<real>>)
    requires
        m.len() >= 1,
        invertible(m),
    ensures
        invertible(mat_inverse(m)),
        mat_inverse(mat_inverse(m)) == m,
{
    let x = mat_inverse(m);
    assert(is_inverse_of(x, m));
    assert(is_inverse_of(m, x));
    lemma_inverse_is_the_inverse(m, x);
}

/// An inner product in which at most the product at position `i` is not
/// zero is that product.
#[verifier::spinoff_prover]
pub proof fn lemma_dot_prefix_single(u: Seq<real>, v: Seq<real>, i: int, n: nat)
    requires
        forall|k: int| 0 <= k < n && k != i ==> u[k] * v[k] == 0real,
    ensures
        dot_prefix(u, v, n) == (if 0 <= i < n {
            u[i] * v[i]
        } else {
            0real
        }),
    decreases n,
{
    if n > 0 {
        lemma_dot_prefix_single(u, v, i, (n - 1) as nat);
    }
}

/// The product of two numbers of which one is zero is zero.
#[verifier::spinoff_prover]
pub proof fn lemma_zero_product(a: real, b: real)
    requires
        a == 0real || b == 0real,
    ensures
        a * b == 0real,
{
    assert(a * b == 0real) by (nonlinear_arith)
        requires
            a == 0real || b == 0real,
    ;
}

/// The product of two diagonal matrices whose diagonal entries multiply to
/// one, position by position, is the identity.
#[verifier::spinoff_prover]
pub proof fn lemma_diagonal_inverse(v: Seq<real>, w: Seq<real>)
    requires
        v.len() == w.len(),
        v.len() >= 1,
        forall|i: int| 0 <= i < v.len() ==> #[trigger] v[i] * w[i] == 1real,
    ensures
        mat_product(mat_diagonal(v), mat_diagonal(w)) == mat_identity(v.len()),
{
    let n = v.len();
    let p = mat_product(mat_diagonal(v), mat_diagonal(w));
    assert forall|i: int, j: int| 0 <= i < n && 0 <= j < n implies p[i][j] == kronecker(i, j) by {
        let a = mat_diagonal(v)[i];
        let b = column(mat_diagonal(w), j);
        assert forall|k: int| 0 <= k < n && k != i implies a[k] * b[k] == 0real by {
            lemma_zero_product(a[k], b[k]);
        }
        lemma_dot_prefix_single(a, b, i, n);
        if i == j {
            assert(a[i] == v[i]);
            assert(b[i] == w[i]);
        } else {
            lemma_zero_product(a[i], b[i]);
        }
    }
    assert(p =~~= mat_identity(n));
}

/// The product of two invertible matrices is inverted by the product of
/// the inverses in reverse order.
#[verifier::spinoff_prover]
pub proof fn lemma_product_inverse(
    a: Seq<Seq<real>>,
    ai: Seq<Seq<real>>,
    b: Seq<Seq<real>>,
    bi: Seq<Seq<real>>,
)
    requires
        a.len() >= 1,
        a.len() == b.len(),
        is_inverse_of(ai, a),
        is_inverse_of(bi, b),
    ensures
        is_inverse_of(mat_product(bi, ai), mat_product(a, b)),
{
    let n = a.len();
    let ab = mat_product(a, b);
    let biai = mat_product(bi, ai);
    assert(is_square(ab, n));
    assert(is_square(biai, n));
    // (bi ai)(a b) = bi (ai (a b)) = bi ((ai a) b) = bi b
    lemma_product_assoc(bi, ai, ab);
    lemma_product_assoc(ai, a, b);
    lemma_product_identity_left(b, n);
    // (a b)(bi ai) = a (b (bi ai)) = a ((b bi) ai) = a ai
    lemma_product_assoc(a, b, biai);
    lemma_product_assoc(b, bi, ai);
    lemma_product_identity_left(ai, n);
}

/// The sum of a vector whose entries are the products of the entries of two
/// others is the inner product of the two.
#[verifier::spinoff_prover]
pub proof fn lemma_sum_of_products(row: Seq<real>, u: Seq<real>, v: Seq<real>, n: nat)
    requires
        forall|k: int| 0 <= k < n ==> row[k] == u[k] * v[k],
    ensures
        sum_prefix(row, n) == dot_prefix(u, v, n),
    decreases n,
{
    if n > 0 {
        lemma_sum_of_products(row, u, v, (n - 1) as nat);
    }
}

/// The order of the factors of a product does not matter.
#[verifier::spinoff_prover]
pub proof fn lemma_mul_commutes(a: real, b: real)
    ensures
        a * b == b * a,
{
    assert(a * b == b * a) by (nonlinear_arith);
}

} // verus!
