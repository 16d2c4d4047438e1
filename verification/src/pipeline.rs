//! The colour-conversion matrices: from the chromaticities of the primaries
//! and of the white point to the matrices between RGB, XYZ, the cone
//! response space and the profile connection space.

use crate::error::MatrixError;
use crate::inverse::inverse;
use crate::linalg::column;
use crate::linalg::dot;
use crate::linalg::invertible;
use crate::linalg::is_inverse_of;
use crate::linalg::is_matrix;
use crate::linalg::lemma_diagonal_inverse;
use crate::linalg::lemma_dot_prefix_single;
use crate::linalg::lemma_inverse_is_the_inverse;
use crate::linalg::lemma_mul_commutes;
use crate::linalg::lemma_product_assoc;
use crate::linalg::lemma_product_identity_right;
use crate::linalg::lemma_product_inverse;
use crate::linalg::lemma_sum_of_products;
use crate::linalg::lemma_zero_product;
use crate::linalg::mat_diagonal;
use crate::linalg::mat_inverse;
use crate::linalg::mat_product;
use crate::linalg::mat_product_transposed;
use crate::linalg::mat_row_sums;
use crate::linalg::mat_transpose;
use crate::matrix::Matrix;
use crate::matrix::diag;
use crate::matrix::get_matrix;
use crate::matrix::lemma_view_shape;
use crate::matrix::mat_rounded;
use crate::matrix::multiply;
use crate::matrix::multiplyabt;
use crate::matrix::round_to_denominator;
use crate::matrix::row_values;
use crate::matrix::row_wf;
use crate::matrix::sum_columns;
use crate::matrix::texts_parse;
use crate::matrix::texts_rectangular;
use crate::matrix::transpose;
use crate::rational::Rational;
use crate::rational::parsed_value;
use vstd::prelude::*;
use vstd::string::StrSliceExecFns;

verus! {

/// The chromaticity coordinates (x, y) of a colour; y is not zero.
pub struct Chromaticity {
    x: Rational,
    y: Rational,
}

impl Chromaticity {
    /// The coordinate x, as stored.
    pub closed spec fn x_coordinate(&self) -> Rational {
        self.x
    }

    /// The coordinate y, as stored.
    pub closed spec fn y_coordinate(&self) -> Rational {
        self.y
    }

    /// Both coordinates are canonical and y is not zero.
    pub open spec fn wf(&self) -> bool {
        &&& self.x_coordinate().wf()
        &&& self.y_coordinate().wf()
        &&& self.y_coordinate()@ != 0real
    }

    /// The chromaticity (x, y), unless y is zero.
    pub fn new(x: Rational, y: Rational) -> (r: Option<Chromaticity>)
        requires
            x.wf(),
            y.wf(),
        ensures
            r.is_some() <==> y@ != 0real,
            r.is_some() ==> r.unwrap().wf() && r.unwrap()@ == (x@, y@),
    {
        if y.is_zero() {
            None
        } else {
            Some(Chromaticity { x, y })
        }
    }

    /// The coordinate x.
    pub fn x(&self) -> (r: &Rational)
        ensures
            *r == self.x_coordinate(),
    {
        &self.x
    }

    /// The coordinate y.
    pub fn y(&self) -> (r: &Rational)
        ensures
            *r == self.y_coordinate(),
    {
        &self.y
    }
}

impl View for Chromaticity {
    type V = (real, real);

    open spec fn view(&self) -> (real, real) {
        (self.x_coordinate()@, self.y_coordinate()@)
    }
}

/// The position of the first comma of `t` at or after `from`, or the length
/// of `t` if there is none.
pub open spec fn first_comma(t: Seq<char>, from: int) -> int
    decreases t.len() - from,
{
    if from >= t.len() {
        t.len() as int
    } else if t[from] == ',' {
        from
    } else {
        first_comma(t, from + 1)
    }
}

/// The first two of the fields that commas divide `t` into, if there are at
/// least two.
pub open spec fn chromaticity_fields(t: Seq<char>) -> Option<(Seq<char>, Seq<char>)> {
    let c1 = first_comma(t, 0);
    if c1 >= t.len() {
        None
    } else {
        Some((t.subrange(0, c1), t.subrange(c1 + 1, first_comma(t, c1 + 1))))
    }
}

/// The chromaticity written in `t` as `x,y`, if `t` has two fields that are
/// numbers and the second is not zero.
pub open spec fn parsed_chromaticity(t: Seq<char>) -> Option<(real, real)> {
    match chromaticity_fields(t) {
        None => None,
        Some(fields) => match (parsed_value(fields.0), parsed_value(fields.1)) {
            (Some(x), Some(y)) => if y != 0real {
                Some((x, y))
            } else {
                None
            },
            _ => None,
        },
    }
}

/// The position of the first comma of `s` at or after `from`, or the length
/// of `s` in characters if there is none.
pub fn find_comma(s: &str, from: usize) -> (r: usize)
    requires
        from <= s@.len(),
    ensures
        r == first_comma(s@, from as int),
        from <= r <= s@.len(),
{
    let n = s.unicode_len();
    let mut i: usize = from;
    while i < n
        invariant
            from <= i <= n,
            n == s@.len(),
            first_comma(s@, from as int) == first_comma(s@, i as int),
        decreases n - i,
    {
        if s.get_char(i) == ',' {
            return i;
        }
        i += 1;
    }
    i
}

/// Reads a chromaticity written as `x,y`.
pub fn parse_chromaticity(s: &str) -> (r: Option<Chromaticity>)
    ensures
        r.is_some() <==> parsed_chromaticity(s@).is_some(),
        r.is_some() ==> r.unwrap().wf() && Some(r.unwrap()@) == parsed_chromaticity(s@),
{
    let n = s.unicode_len();
    let c1 = find_comma(s, 0);
    if c1 >= n {
        return None;
    }
    let c2 = find_comma(s, c1 + 1);
    let first = s.substring_char(0, c1);
    let second = s.substring_char(c1 + 1, c2);
    match Rational::parse(first) {
        None => None,
        Some(x) => match Rational::parse(second) {
            None => None,
            Some(y) => Chromaticity::new(x, y),
        },
    }
}

/// The tristimulus values of a colour of chromaticity (x, y) and luminance
/// one: x/y, 1 and z/y, where z = 1 − x − y.
pub open spec fn tristimulus(c: (real, real)) -> Seq<real> {
    seq![c.0 / c.1, 1real, (1real - c.0 - c.1) / c.1]
}

/// The matrix whose rows are the tristimulus values of the three primaries.
pub open spec fn primaries_transposed(
    red: (real, real),
    green: (real, real),
    blue: (real, real),
) -> Seq<Seq<real>> {
    seq![tristimulus(red), tristimulus(green), tristimulus(blue)]
}

/// The matrix from linear RGB to XYZ for the given primaries and white
/// point: the columns are the tristimulus values of the primaries, each
/// scaled by the luminance that makes the three add up to the white point.
pub open spec fn primary_matrix(
    red: (real, real),
    green: (real, real),
    blue: (real, real),
    white: (real, real),
) -> Seq<Seq<real>> {
    let mt = primaries_transposed(red, green, blue);
    let luminances = mat_product(seq![tristimulus(white)], mat_inverse(mt));
    mat_product_transposed(mat_transpose(mt), mat_diagonal(luminances[0]))
}

/// The columns of the primary matrix add up to the tristimulus values of
/// the white point: white is what the three primaries give together.
#[verifier::spinoff_prover]
pub proof fn lemma_primary_matrix_white(
    red: (real, real),
    green: (real, real),
    blue: (real, real),
    white: (real, real),
)
    requires
        invertible(primaries_transposed(red, green, blue)),
    ensures
        mat_row_sums(primary_matrix(red, green, blue, white)) == mat_transpose(
            seq![tristimulus(white)],
        ),
{
    let mt = primaries_transposed(red, green, blue);
    let inv = mat_inverse(mt);
    let bt = seq![tristimulus(white)];
    let yt = mat_product(bt, inv);
    let y = yt[0];
    let p = primary_matrix(red, green, blue, white);
    assert(is_inverse_of(inv, mt));
    assert(mt.len() == 3);
    assert(is_matrix(bt, 1, 3));
    lemma_product_assoc(bt, inv, mt);
    lemma_product_identity_right(bt, 3);
    assert(mat_product(yt, mt) == bt);
    let sums = mat_row_sums(p);
    let want = mat_transpose(bt);
    assert forall|i: int| 0 <= i < 3 implies #[trigger] sums[i] =~= want[i] by {
        let col = column(mt, i);
        assert(mat_transpose(mt)[i] == col);
        assert forall|k: int| 0 <= k < 3 implies p[i][k] == y[k] * col[k] by {
            let d = mat_diagonal(y)[k];
            assert forall|j: int| 0 <= j < 3 && j != k implies col[j] * d[j] == 0real by {
                lemma_zero_product(col[j], d[j]);
            }
            lemma_dot_prefix_single(col, d, k, 3);
            lemma_mul_commutes(col[k], y[k]);
        }
        lemma_sum_of_products(p[i], y, col, 3);
        assert(mat_product(yt, mt)[0][i] == dot(y, col));
        assert(bt[0][i] == tristimulus(white)[i]);
    }
    assert(sums =~= want);
}

/// The tristimulus values of a colour of the given chromaticity and
/// luminance one.
#[verifier::spinoff_prover]
pub fn tristimulus_row(c: &Chromaticity) -> (row: Vec<Rational>)
    requires
        c.wf(),
    ensures
        row@.len() == 3,
        row_wf(row@),
        row_values(row@) == tristimulus(c@),
{
    let one = Rational::one();
    let z = one.sub(&c.x).sub(&c.y);
    let mut row: Vec<Rational> = Vec::new();
    row.push(c.x.div(&c.y));
    row.push(one);
    row.push(z.div(&c.y));
    assert(row_values(row@) =~= tristimulus(c@));
    row
}

/// The matrix from linear RGB to XYZ for the given primaries and white
/// point, or `SingularMatrix` if the primaries do not span the colour space.
#[verifier::spinoff_prover]
pub fn primary_matrix_of(
    red: &Chromaticity,
    green: &Chromaticity,
    blue: &Chromaticity,
    white: &Chromaticity,
) -> (r: Result<Matrix, MatrixError>)
    requires
        red.wf(),
        green.wf(),
        blue.wf(),
        white.wf(),
    ensures
        r.is_ok() <==> invertible(primaries_transposed(red@, green@, blue@)),
        r.is_err() ==> r == Err::<Matrix, MatrixError>(MatrixError::SingularMatrix),
        r.is_ok() ==> {
            let m = r.unwrap();
            &&& m.wf()
            &&& m.nrows() == 3
            &&& m.ncols() == 3
            &&& m@ == primary_matrix(red@, green@, blue@, white@)
            &&& mat_row_sums(m@) == mat_transpose(seq![tristimulus(white@)])
        },
{
    let mut rows: Vec<Vec<Rational>> = Vec::new();
    rows.push(tristimulus_row(red));
    rows.push(tristimulus_row(green));
    rows.push(tristimulus_row(blue));
    let mt = Matrix { rows };
    let mut rows: Vec<Vec<Rational>> = Vec::new();
    rows.push(tristimulus_row(white));
    let bt = Matrix { rows };
    proof {
        assert(mt.entries()[0].len() == 3);
        assert(mt@ =~~= primaries_transposed(red@, green@, blue@));
        assert(bt.entries()[0].len() == 3);
        assert(bt@ =~~= seq![tristimulus(white@)]);
    }
    let inv = match inverse(&mt) {
        Ok(inv) => inv,
        Err(_) => {
            return Err(MatrixError::SingularMatrix);
        },
    };
    proof {
        lemma_view_shape(&mt);
        lemma_view_shape(&inv);
        lemma_inverse_is_the_inverse(inv@, mt@);
        lemma_primary_matrix_white(red@, green@, blue@, white@);
    }
    let yt = match multiply(&bt, &inv) {
        Ok(yt) => yt,
        Err(e) => {
            return Err(e);
        },
    };
    let m = transpose(&mt);
    assert(row_wf(yt.entries()[0]));
    let d = diag(&yt.rows[0]);
    assert(row_values(yt.rows[0]@) == yt@[0]);
    multiplyabt(&m, &d)
}

/// The matrix from linear RGB to XYZ for primaries and white point written
/// as `x,y`, or `Malformed` if one of the four texts is not a chromaticity.
#[verifier::spinoff_prover]
pub fn compute_primary_matrix(xy_red: &str, xy_green: &str, xy_blue: &str, xy_white: &str) -> (r:
    Result<Matrix, MatrixError>)
    ensures
        r == Err::<Matrix, MatrixError>(MatrixError::Malformed) <==> (parsed_chromaticity(
            xy_red@,
        ).is_none() || parsed_chromaticity(xy_green@).is_none() || parsed_chromaticity(
            xy_blue@,
        ).is_none() || parsed_chromaticity(xy_white@).is_none()),
        r == Err::<Matrix, MatrixError>(MatrixError::SingularMatrix) <==> (parsed_chromaticity(
            xy_red@,
        ).is_some() && parsed_chromaticity(xy_green@).is_some() && parsed_chromaticity(
            xy_blue@,
        ).is_some() && parsed_chromaticity(xy_white@).is_some() && !invertible(
            primaries_transposed(
                parsed_chromaticity(xy_red@).unwrap(),
                parsed_chromaticity(xy_green@).unwrap(),
                parsed_chromaticity(xy_blue@).unwrap(),
            ),
        )),
        r.is_err() ==> r == Err::<Matrix, MatrixError>(MatrixError::Malformed) || r == Err::<
            Matrix,
            MatrixError,
        >(MatrixError::SingularMatrix),
        r.is_ok() ==> {
            let m = r.unwrap();
            &&& m.wf()
            &&& m.nrows() == 3
            &&& m.ncols() == 3
            &&& m@ == primary_matrix(
                parsed_chromaticity(xy_red@).unwrap(),
                parsed_chromaticity(xy_green@).unwrap(),
                parsed_chromaticity(xy_blue@).unwrap(),
                parsed_chromaticity(xy_white@).unwrap(),
            )
        },
{
    let red = match parse_chromaticity(xy_red) {
        Some(c) => c,
        None => {
            return Err(MatrixError::Malformed);
        },
    };
    let green = match parse_chromaticity(xy_green) {
        Some(c) => c,
        None => {
            return Err(MatrixError::Malformed);
        },
    };
    let blue = match parse_chromaticity(xy_blue) {
        Some(c) => c,
        None => {
            return Err(MatrixError::Malformed);
        },
    };
    let white = match parse_chromaticity(xy_white) {
        Some(c) => c,
        None => {
            return Err(MatrixError::Malformed);
        },
    };
    primary_matrix_of(&red, &green, &blue, &white)
}

/// The matrix that acts as `diagonal` in the coordinates of `basis`: the
/// inverse of `basis`, times `diagonal`, times `basis`.
///
/// Fails with `DimensionMismatch` if `basis` is not square or, for an
/// invertible `basis`, `diagonal` has not its shape; with `SingularMatrix` if
/// `basis` is square and has no inverse.
#[verifier::spinoff_prover]
pub fn similarity_transform(basis: &Matrix, diagonal: &Matrix) -> (r: Result<Matrix, MatrixError>)
    requires
        basis.wf(),
        diagonal.wf(),
    ensures
        r.is_ok() <==> basis.nrows() == basis.ncols() && invertible(basis@) && diagonal.nrows()
            == basis.nrows() && diagonal.ncols() == basis.nrows(),
        r == Err::<Matrix, MatrixError>(MatrixError::SingularMatrix) <==> basis.nrows()
            == basis.ncols() && !invertible(basis@),
        r.is_err() ==> r == Err::<Matrix, MatrixError>(MatrixError::SingularMatrix) || r == Err::<
            Matrix,
            MatrixError,
        >(MatrixError::DimensionMismatch),
        r.is_ok() ==> {
            let m = r.unwrap();
            &&& m.wf()
            &&& m.nrows() == basis.nrows()
            &&& m.ncols() == basis.ncols()
            &&& m@ == mat_product(mat_product(mat_inverse(basis@), diagonal@), basis@)
        },
{
    let inv = match inverse(basis) {
        Ok(inv) => inv,
        Err(e) => {
            return Err(e);
        },
    };
    proof {
        lemma_view_shape(basis);
        lemma_view_shape(&inv);
        lemma_inverse_is_the_inverse(inv@, basis@);
    }
    let left = match multiply(&inv, diagonal) {
        Ok(left) => left,
        Err(e) => {
            return Err(e);
        },
    };
    multiply(&left, basis)
}

/// Entry by entry, the first column of `num` divided by the first column of
/// `den`.
pub open spec fn ratio_column(num: Seq<Seq<real>>, den: Seq<Seq<real>>) -> Seq<real> {
    Seq::new(num.len(), |i: int| num[i][0] / den[i][0])
}

/// The reciprocals of the entries of `u`.
pub open spec fn reciprocals(u: Seq<real>) -> Seq<real> {
    Seq::new(u.len(), |i: int| 1real / u[i])
}

/// No entry of the first column of `m` is zero.
pub open spec fn column_nonzero(m: Seq<Seq<real>>) -> bool {
    forall|i: int| 0 <= i < m.len() ==> (#[trigger] m[i])[0] != 0real
}

/// The white point of the device in the cone response space: the
/// adaptation matrix `c` applied to the sum of the columns of the primary
/// matrix `p`.
pub open spec fn adapted_white(p: Seq<Seq<real>>, c: Seq<Seq<real>>) -> Seq<Seq<real>> {
    mat_product(c, mat_row_sums(p))
}

/// The diagonal matrix that takes the adapted device white to the adapted
/// white `w` of the profile connection space.
pub open spec fn adaptation_scaling(p: Seq<Seq<real>>, c: Seq<Seq<real>>, w: Seq<Seq<real>>) -> Seq<
    Seq<real>,
> {
    mat_diagonal(reciprocals(ratio_column(adapted_white(p, c), mat_product(c, w))))
}

/// The matrix from XYZ to the XYZ of the profile connection space: the
/// scaling of the cone responses, carried back to XYZ.
pub open spec fn adaptation_matrix(p: Seq<Seq<real>>, c: Seq<Seq<real>>, w: Seq<Seq<real>>) -> Seq<
    Seq<real>,
> {
    mat_product(mat_product(mat_inverse(c), adaptation_scaling(p, c, w)), c)
}

/// The matrix from linear RGB to the XYZ of the profile connection space.
pub open spec fn connection_matrix(p: Seq<Seq<real>>, c: Seq<Seq<real>>, w: Seq<Seq<real>>) -> Seq<
    Seq<real>,
> {
    mat_product(adaptation_matrix(p, c, w), p)
}

/// The primary matrix `p` and the adaptation matrix `c` are square of one
/// size, and the white point `w` is a column vector of that size.
pub open spec fn shapes_fit(p: Seq<Seq<real>>, c: Seq<Seq<real>>, w: Seq<Seq<real>>) -> bool {
    &&& p.len() >= 1
    &&& is_matrix(p, p.len(), p.len())
    &&& is_matrix(c, p.len(), p.len())
    &&& is_matrix(w, p.len(), 1)
}

/// All the matrices of the chain can be derived: the shapes fit, the
/// primary matrix and the adaptation matrix have inverses, no component of
/// either adapted white is zero, and the rounded matrix into the profile
/// connection space has an inverse.
pub open spec fn derivable(
    p: Seq<Seq<real>>,
    c: Seq<Seq<real>>,
    w: Seq<Seq<real>>,
    denom: real,
) -> bool {
    &&& shapes_fit(p, c, w)
    &&& invertible(p)
    &&& invertible(c)
    &&& column_nonzero(adapted_white(p, c))
    &&& column_nonzero(mat_product(c, w))
    &&& invertible(mat_rounded(connection_matrix(p, c, w), denom))
}

/// The matrices of the chain from linear RGB to the profile connection
/// space and back.
pub struct DerivedMatrices {
    /// From linear RGB to XYZ: the primary matrix.
    pub xyz_from_rgb: Matrix,
    /// From XYZ to linear RGB.
    pub rgb_from_xyz: Matrix,
    /// From XYZ to the cone response space: the chromatic adaptation matrix.
    pub lms_from_xyz: Matrix,
    /// From the cone response space to XYZ.
    pub xyz_from_lms: Matrix,
    /// The white point of the device in XYZ.
    pub xyz_white: Matrix,
    /// The white point of the profile connection space in XYZ.
    pub xyz_pcs_white: Matrix,
    /// The white point of the device in the cone response space.
    pub lms_white: Matrix,
    /// The white point of the profile connection space in the cone response
    /// space.
    pub lms_pcs_white: Matrix,
    /// The diagonal scaling from the device's cone responses to those of the
    /// profile connection space.
    pub pcslms_from_lms: Matrix,
    /// The diagonal scaling in the other direction.
    pub lms_from_pcslms: Matrix,
    /// From XYZ to the XYZ of the profile connection space.
    pub pcsxyz_from_xyz: Matrix,
    /// From the XYZ of the profile connection space to XYZ.
    pub xyz_from_pcsxyz: Matrix,
    /// From linear RGB to the XYZ of the profile connection space.
    pub pcsxyz_from_rgb: Matrix,
    /// From the XYZ of the profile connection space to linear RGB.
    pub rgb_from_pcsxyz: Matrix,
    /// `pcsxyz_from_rgb` rounded to multiples of one over the denominator.
    pub pcsxyz1_from_rgb: Matrix,
    /// The inverse of the rounded matrix.
    pub rgb_from_pcsxyz1: Matrix,
}

impl DerivedMatrices {
    /// Every matrix of the chain is well formed.
    pub open spec fn wf(&self) -> bool {
        &&& self.xyz_from_rgb.wf()
        &&& self.rgb_from_xyz.wf()
        &&& self.lms_from_xyz.wf()
        &&& self.xyz_from_lms.wf()
        &&& self.xyz_white.wf()
        &&& self.xyz_pcs_white.wf()
        &&& self.lms_white.wf()
        &&& self.lms_pcs_white.wf()
        &&& self.pcslms_from_lms.wf()
        &&& self.lms_from_pcslms.wf()
        &&& self.pcsxyz_from_xyz.wf()
        &&& self.xyz_from_pcsxyz.wf()
        &&& self.pcsxyz_from_rgb.wf()
        &&& self.rgb_from_pcsxyz.wf()
        &&& self.pcsxyz1_from_rgb.wf()
        &&& self.rgb_from_pcsxyz1.wf()
    }

    /// Each matrix is what the chain makes of the primary matrix, the
    /// adaptation matrix and the white point of the profile connection
    /// space, with rounding to multiples of 1/`denom`.
    pub open spec fn derived(&self, denom: real) -> bool {
        let p = self.xyz_from_rgb@;
        let c = self.lms_from_xyz@;
        let w = self.xyz_pcs_white@;
        &&& self.rgb_from_xyz@ == mat_inverse(p)
        &&& self.xyz_from_lms@ == mat_inverse(c)
        &&& self.xyz_white@ == mat_row_sums(p)
        &&& self.lms_white@ == adapted_white(p, c)
        &&& self.lms_pcs_white@ == mat_product(c, w)
        &&& self.pcslms_from_lms@ == adaptation_scaling(p, c, w)
        &&& self.lms_from_pcslms@ == mat_diagonal(
            ratio_column(adapted_white(p, c), mat_product(c, w)),
        )
        &&& self.pcsxyz_from_xyz@ == adaptation_matrix(p, c, w)
        &&& self.xyz_from_pcsxyz@ == mat_product(
            mat_product(mat_inverse(c), self.lms_from_pcslms@),
            c,
        )
        &&& self.pcsxyz_from_rgb@ == connection_matrix(p, c, w)
        &&& self.rgb_from_pcsxyz@ == mat_product(self.rgb_from_xyz@, self.xyz_from_pcsxyz@)
        &&& self.pcsxyz1_from_rgb@ == mat_rounded(connection_matrix(p, c, w), denom)
        &&& self.rgb_from_pcsxyz1@ == mat_inverse(self.pcsxyz1_from_rgb@)
    }

    /// Each matrix that goes back is the inverse of the one that goes
    /// forth: their products, in both orders, are the identity.
    pub open spec fn inverses_agree(&self) -> bool {
        &&& is_inverse_of(self.rgb_from_xyz@, self.xyz_from_rgb@)
        &&& is_inverse_of(self.xyz_from_lms@, self.lms_from_xyz@)
        &&& is_inverse_of(self.lms_from_pcslms@, self.pcslms_from_lms@)
        &&& is_inverse_of(self.xyz_from_pcsxyz@, self.pcsxyz_from_xyz@)
        &&& is_inverse_of(self.rgb_from_pcsxyz@, self.pcsxyz_from_rgb@)
        &&& is_inverse_of(self.rgb_from_pcsxyz1@, self.pcsxyz1_from_rgb@)
    }
}

/// The quotient of two non-zero numbers has a reciprocal, and the two
/// multiply to one in either order.
#[verifier::spinoff_prover]
pub proof fn lemma_ratio_reciprocal(a: real, b: real)
    requires
        a != 0real,
        b != 0real,
    ensures
        a / b != 0real,
        (1real / (a / b)) * (a / b) == 1real,
        (a / b) * (1real / (a / b)) == 1real,
{
    assert(a / b != 0real) by (nonlinear_arith)
        requires
            a != 0real,
            b != 0real,
    ;
    let x = a / b;
    assert((1real / x) * x == 1real) by (nonlinear_arith)
        requires
            x != 0real,
    ;
    assert(x * (1real / x) == 1real) by (nonlinear_arith)
        requires
            x != 0real,
    ;
}

/// The two diagonal scalings between the adapted whites: the ratios of the
/// components of `from` to those of `to`, and the reciprocals of the ratios.
/// Fails if a component of either white is zero.
#[verifier::spinoff_prover]
pub fn white_ratios(from: &Matrix, to: &Matrix) -> (r: Option<(Vec<Rational>, Vec<Rational>)>)
    requires
        from.wf(),
        to.wf(),
        from.nrows() == to.nrows(),
    ensures
        r.is_some() <==> column_nonzero(from@) && column_nonzero(to@),
        r.is_some() ==> {
            let (v, w) = r.unwrap();
            &&& v@.len() == from.nrows()
            &&& w@.len() == from.nrows()
            &&& row_wf(v@)
            &&& row_wf(w@)
            &&& row_values(w@) == ratio_column(from@, to@)
            &&& row_values(v@) == reciprocals(ratio_column(from@, to@))
        },
{
    let n = from.row_count();
    let mut v: Vec<Rational> = Vec::new();
    let mut w: Vec<Rational> = Vec::new();
    let mut i: usize = 0;
    while i < n
        invariant
            i <= n,
            from.wf(),
            to.wf(),
            n == from.nrows(),
            n == to.nrows(),
            v@.len() == i,
            w@.len() == i,
            row_wf(v@),
            row_wf(w@),
            forall|k: int| 0 <= k < i ==> (#[trigger] from@[k])[0] != 0real,
            forall|k: int| 0 <= k < i ==> (#[trigger] to@[k])[0] != 0real,
            forall|k: int| 0 <= k < i ==> (#[trigger] w@[k])@ == from@[k][0] / to@[k][0],
            forall|k: int| 0 <= k < i ==> (#[trigger] v@[k])@ == 1real / (from@[k][0] / to@[k][0]),
        decreases n - i,
    {
        proof {
            lemma_view_shape(from);
            lemma_view_shape(to);
        }
        let a = from.entry(i, 0);
        let b = to.entry(i, 0);
        if a.is_zero() || b.is_zero() {
            return None;
        }
        proof {
            lemma_ratio_reciprocal(a@, b@);
        }
        let x = a.div(&b);
        v.push(x.recip());
        w.push(x);
        i += 1;
    }
    proof {
        assert(row_values(w@) =~= ratio_column(from@, to@));
        assert(row_values(v@) =~= reciprocals(ratio_column(from@, to@)));
    }
    Some((v, w))
}

/// If the diagonal matrices `l` and `li` are inverse to each other, so are
/// the matrices that act as `l` and as `li` in the coordinates of `c`.
#[verifier::spinoff_prover]
pub proof fn lemma_similarity_inverse(
    c: Seq<Seq<real>>,
    ci: Seq<Seq<real>>,
    l: Seq<Seq<real>>,
    li: Seq<Seq<real>>,
)
    requires
        c.len() >= 1,
        l.len() == c.len(),
        is_inverse_of(ci, c),
        is_inverse_of(li, l),
    ensures
        is_inverse_of(mat_product(mat_product(ci, li), c), mat_product(mat_product(ci, l), c)),
{
    assert(is_inverse_of(c, ci));
    lemma_product_inverse(ci, c, l, li);
    lemma_product_inverse(mat_product(ci, l), mat_product(li, c), c, ci);
    lemma_product_assoc(ci, li, c);
}

/// Derives the whole chain of matrices from the primary matrix, the
/// chromatic adaptation matrix and the white point of the profile connection
/// space, rounding the matrix into that space to multiples of 1/`denom`.
///
/// Fails with `DimensionMismatch` unless the two matrices are square of one
/// size and the white point is a column vector of that size; with
/// `SingularMatrix` if the shapes fit but one of the matrices to invert has
/// no inverse or a component of an adapted white is zero.
#[verifier::spinoff_prover]
pub fn derive_matrices(
    xyz_from_rgb: Matrix,
    lms_from_xyz: Matrix,
    xyz_pcs_white: Matrix,
    denom: u64,
) -> (r: Result<DerivedMatrices, MatrixError>)
    requires
        xyz_from_rgb.wf(),
        lms_from_xyz.wf(),
        xyz_pcs_white.wf(),
        denom != 0,
    ensures
        r.is_ok() <==> derivable(xyz_from_rgb@, lms_from_xyz@, xyz_pcs_white@, denom as real),
        r == Err::<DerivedMatrices, MatrixError>(MatrixError::DimensionMismatch) <==> !shapes_fit(
            xyz_from_rgb@,
            lms_from_xyz@,
            xyz_pcs_white@,
        ),
        r.is_err() ==> r == Err::<DerivedMatrices, MatrixError>(MatrixError::DimensionMismatch)
            || r == Err::<DerivedMatrices, MatrixError>(MatrixError::SingularMatrix),
        r.is_ok() ==> {
            let b = r.unwrap();
            &&& b.wf()
            &&& b.xyz_from_rgb@ == xyz_from_rgb@
            &&& b.lms_from_xyz@ == lms_from_xyz@
            &&& b.xyz_pcs_white@ == xyz_pcs_white@
            &&& b.derived(denom as real)
            &&& b.inverses_agree()
        },
{
    let n = xyz_from_rgb.row_count();
    proof {
        lemma_view_shape(&xyz_from_rgb);
        lemma_view_shape(&lms_from_xyz);
        lemma_view_shape(&xyz_pcs_white);
    }
    if xyz_from_rgb.col_count() != n || lms_from_xyz.row_count() != n || lms_from_xyz.col_count()
        != n || xyz_pcs_white.row_count() != n || xyz_pcs_white.col_count() != 1 {
        return Err(MatrixError::DimensionMismatch);
    }
    let ghost p = xyz_from_rgb@;
    let ghost c = lms_from_xyz@;
    let ghost w = xyz_pcs_white@;
    assert(shapes_fit(p, c, w));
    let rgb_from_xyz = match inverse(&xyz_from_rgb) {
        Ok(m) => m,
        Err(_) => {
            return Err(MatrixError::SingularMatrix);
        },
    };
    let xyz_from_lms = match inverse(&lms_from_xyz) {
        Ok(m) => m,
        Err(_) => {
            return Err(MatrixError::SingularMatrix);
        },
    };
    proof {
        lemma_view_shape(&rgb_from_xyz);
        lemma_view_shape(&xyz_from_lms);
        lemma_inverse_is_the_inverse(rgb_from_xyz@, p);
        lemma_inverse_is_the_inverse(xyz_from_lms@, c);
    }
    let xyz_white = sum_columns(&xyz_from_rgb);
    let lms_white = match multiply(&lms_from_xyz, &xyz_white) {
        Ok(m) => m,
        Err(e) => {
            assert(false);
            return Err(e);
        },
    };
    let lms_pcs_white = match multiply(&lms_from_xyz, &xyz_pcs_white) {
        Ok(m) => m,
        Err(e) => {
            assert(false);
            return Err(e);
        },
    };
    let (v, w_ratios) = match white_ratios(&lms_white, &lms_pcs_white) {
        Some(pair) => pair,
        None => {
            return Err(MatrixError::SingularMatrix);
        },
    };
    let ghost ratios = ratio_column(lms_white@, lms_pcs_white@);
    let pcslms_from_lms = diag(&v);
    let lms_from_pcslms = diag(&w_ratios);
    proof {
        lemma_view_shape(&lms_white);
        lemma_view_shape(&lms_pcs_white);
        lemma_view_shape(&pcslms_from_lms);
        lemma_view_shape(&lms_from_pcslms);
        assert forall|i: int| 0 <= i < n implies #[trigger] reciprocals(ratios)[i] * ratios[i]
            == 1real && ratios[i] * reciprocals(ratios)[i] == 1real by {
            assert(lms_white@[i][0] != 0real);
            assert(lms_pcs_white@[i][0] != 0real);
            lemma_ratio_reciprocal(lms_white@[i][0], lms_pcs_white@[i][0]);
        }
        lemma_diagonal_inverse(reciprocals(ratios), ratios);
        lemma_diagonal_inverse(ratios, reciprocals(ratios));
        assert(is_inverse_of(lms_from_pcslms@, pcslms_from_lms@));
    }
    let pcsxyz_from_xyz = match similarity_transform(&lms_from_xyz, &pcslms_from_lms) {
        Ok(m) => m,
        Err(e) => {
            assert(false);
            return Err(e);
        },
    };
    let xyz_from_pcsxyz = match similarity_transform(&lms_from_xyz, &lms_from_pcslms) {
        Ok(m) => m,
        Err(e) => {
            assert(false);
            return Err(e);
        },
    };
    proof {
        lemma_view_shape(&pcsxyz_from_xyz);
        lemma_view_shape(&xyz_from_pcsxyz);
        lemma_similarity_inverse(c, xyz_from_lms@, pcslms_from_lms@, lms_from_pcslms@);
    }
    let pcsxyz_from_rgb = match multiply(&pcsxyz_from_xyz, &xyz_from_rgb) {
        Ok(m) => m,
        Err(e) => {
            assert(false);
            return Err(e);
        },
    };
    let rgb_from_pcsxyz = match multiply(&rgb_from_xyz, &xyz_from_pcsxyz) {
        Ok(m) => m,
        Err(e) => {
            assert(false);
            return Err(e);
        },
    };
    proof {
        lemma_view_shape(&pcsxyz_from_rgb);
        lemma_view_shape(&rgb_from_pcsxyz);
        lemma_product_inverse(pcsxyz_from_xyz@, xyz_from_pcsxyz@, p, rgb_from_xyz@);
    }
    let pcsxyz1_from_rgb = round_to_denominator(&pcsxyz_from_rgb, denom);
    let rgb_from_pcsxyz1 = match inverse(&pcsxyz1_from_rgb) {
        Ok(m) => m,
        Err(_) => {
            return Err(MatrixError::SingularMatrix);
        },
    };
    proof {
        lemma_view_shape(&pcsxyz1_from_rgb);
        lemma_view_shape(&rgb_from_pcsxyz1);
        lemma_inverse_is_the_inverse(rgb_from_pcsxyz1@, pcsxyz1_from_rgb@);
    }
    Ok(
        DerivedMatrices {
            xyz_from_rgb,
            rgb_from_xyz,
            lms_from_xyz,
            xyz_from_lms,
            xyz_white,
            xyz_pcs_white,
            lms_white,
            lms_pcs_white,
            pcslms_from_lms,
            lms_from_pcslms,
            pcsxyz_from_xyz,
            xyz_from_pcsxyz,
            pcsxyz_from_rgb,
            rgb_from_pcsxyz,
            pcsxyz1_from_rgb,
            rgb_from_pcsxyz1,
        },
    )
}

/// The texts of the linearized Bradford chromatic adaptation matrix, from
/// XYZ to the cone response space.
pub open spec fn bradford_texts() -> Seq<Seq<Seq<char>>> {
    seq![
        seq!["8951/10000"@, "2664/10000"@, "-1614/10000"@],
        seq!["-7502/10000"@, "17135/10000"@, "367/10000"@],
        seq!["389/10000"@, "-685/10000"@, "10296/10000"@],
    ]
}

/// The texts of the white point of the profile connection space (D50) in
/// XYZ, in multiples of 1/65536.
pub open spec fn pcs_white_texts() -> Seq<Seq<Seq<char>>> {
    seq![seq!["63190/65536"@], seq!["65536/65536"@], seq!["54061/65536"@]]
}

/// The primary matrix of Adobe RGB (1998): red at (0.64, 0.33), green at
/// (0.21, 0.71), blue at (0.15, 0.06) and the white point D65 at
/// (0.3127, 0.3290).
pub open spec fn adobe_primary_matrix() -> Seq<Seq<real>> {
    primary_matrix(
        parsed_chromaticity("64/100,33/100"@).unwrap(),
        parsed_chromaticity("21/100,71/100"@).unwrap(),
        parsed_chromaticity("15/100,6/100"@).unwrap(),
        parsed_chromaticity("3127/10000,3290/10000"@).unwrap(),
    )
}

/// Every text of `texts` denotes a number.
pub open spec fn all_numbers(texts: Seq<Seq<Seq<char>>>) -> bool {
    forall|i: int, j: int|
        0 <= i < texts.len() && 0 <= j < texts[i].len() ==> parsed_value(
            #[trigger] texts[i][j],
        ).is_some()
}

/// The matrix of the numbers written in `texts`.
pub open spec fn parsed_matrix(texts: Seq<Seq<Seq<char>>>) -> Seq<Seq<real>> {
    Seq::new(
        texts.len(),
        |i: int| Seq::new(texts[i].len(), |j: int| parsed_value(texts[i][j]).unwrap()),
    )
}

/// The four chromaticities of Adobe RGB (1998) are read as chromaticities.
pub open spec fn adobe_chromaticities_parse() -> bool {
    &&& parsed_chromaticity("64/100,33/100"@).is_some()
    &&& parsed_chromaticity("21/100,71/100"@).is_some()
    &&& parsed_chromaticity("15/100,6/100"@).is_some()
    &&& parsed_chromaticity("3127/10000,3290/10000"@).is_some()
}

/// The tristimulus values of the primaries of Adobe RGB (1998), row by row.
pub open spec fn adobe_primaries_transposed() -> Seq<Seq<real>> {
    primaries_transposed(
        parsed_chromaticity("64/100,33/100"@).unwrap(),
        parsed_chromaticity("21/100,71/100"@).unwrap(),
        parsed_chromaticity("15/100,6/100"@).unwrap(),
    )
}

/// The adaptation matrix and the white point of the profile connection
/// space are read as numbers.
pub open spec fn adobe_constants_parse() -> bool {
    all_numbers(bradford_texts()) && all_numbers(pcs_white_texts())
}

/// The matrices of Adobe RGB (1998) can be derived: every text is read as
/// what it is meant to be, the primaries span the colour space, and the
/// chain can be derived from the primary matrix, the adaptation matrix and
/// the white point.
pub open spec fn adobe_derivable() -> bool {
    &&& adobe_chromaticities_parse()
    &&& invertible(adobe_primaries_transposed())
    &&& adobe_constants_parse()
    &&& derivable(
        adobe_primary_matrix(),
        parsed_matrix(bradford_texts()),
        parsed_matrix(pcs_white_texts()),
        65536real,
    )
}

/// The texts of a vector of vectors are those of `texts`.
pub open spec fn same_texts(arr: Seq<Vec<&str>>, texts: Seq<Seq<Seq<char>>>) -> bool {
    &&& arr.len() == texts.len()
    &&& forall|i: int| 0 <= i < arr.len() ==> (#[trigger] arr[i])@.len() == texts[i].len()
    &&& forall|i: int, j: int|
        0 <= i < arr.len() && 0 <= j < arr[i]@.len() ==> (#[trigger] arr[i]@[j])@ == texts[i][j]
}

/// The matrix whose entries are written in `arr`, which holds the texts
/// `texts`, a non-empty rectangle; `Malformed` if one of them is not a
/// number.
#[verifier::spinoff_prover]
fn constant_matrix(arr: &Vec<Vec<&str>>, Ghost(texts): Ghost<Seq<Seq<Seq<char>>>>) -> (r:
    Result<Matrix, MatrixError>)
    requires
        same_texts(arr@, texts),
        texts_rectangular(arr@),
    ensures
        r.is_ok() <==> all_numbers(texts),
        r.is_err() ==> r == Err::<Matrix, MatrixError>(MatrixError::Malformed),
        r.is_ok() ==> {
            let m = r.unwrap();
            &&& m.wf()
            &&& m.nrows() == texts.len()
            &&& m.ncols() == texts[0].len()
            &&& m@ == parsed_matrix(texts)
        },
{
    let r = get_matrix(arr);
    proof {
        if all_numbers(texts) {
            assert forall|i: int, j: int|
                0 <= i < arr@.len() && 0 <= j < arr@[i]@.len() implies parsed_value(
                (#[trigger] arr@[i]@[j])@,
            ).is_some() by {
                assert(parsed_value(texts[i][j]).is_some());
            }
        }
        if texts_parse(arr@) {
            assert forall|i: int, j: int|
                0 <= i < texts.len() && 0 <= j < texts[i].len() implies parsed_value(
                #[trigger] texts[i][j],
            ).is_some() by {
                assert(parsed_value(arr@[i]@[j]@).is_some());
            }
        }
        if r.is_ok() {
            let m = r.unwrap();
            lemma_view_shape(&m);
            assert forall|i: int| 0 <= i < m@.len() implies (#[trigger] m@[i]) =~= parsed_matrix(
                texts,
            )[i] by {
                assert forall|j: int| 0 <= j < m@[i].len() implies m@[i][j] == parsed_matrix(
                    texts,
                )[i][j] by {
                    assert(Some(m@[i][j]) == parsed_value(arr@[i]@[j]@));
                }
            }
            assert(m@ =~= parsed_matrix(texts));
        }
    }
    r
}

/// The matrices of Adobe RGB (1998): the chain derived from its primaries
/// and white point, the linearized Bradford adaptation matrix and the D50
/// white point of the profile connection space, with the matrix into that
/// space rounded to multiples of 1/65536.
///
/// Fails with `Malformed` if a text is not read as what it is meant to be,
/// and with `SingularMatrix` if the texts are read but a matrix of the chain
/// has no inverse.
#[verifier::spinoff_prover]
pub fn adobe_rgb_1998() -> (r: Result<DerivedMatrices, MatrixError>)
    ensures
        r.is_ok() <==> adobe_derivable(),
        r == Err::<DerivedMatrices, MatrixError>(MatrixError::Malformed) <==> (
        !adobe_chromaticities_parse() || (invertible(adobe_primaries_transposed())
            && !adobe_constants_parse())),
        r.is_err() ==> r == Err::<DerivedMatrices, MatrixError>(MatrixError::Malformed) || r
            == Err::<DerivedMatrices, MatrixError>(MatrixError::SingularMatrix),
        r.is_ok() ==> {
            let b = r.unwrap();
            &&& b.wf()
            &&& b.xyz_from_rgb@ == adobe_primary_matrix()
            &&& b.lms_from_xyz@ == parsed_matrix(bradford_texts())
            &&& b.xyz_pcs_white@ == parsed_matrix(pcs_white_texts())
            &&& b.derived(65536real)
            &&& b.inverses_agree()
        },
{
    let xyz_from_rgb = match compute_primary_matrix(
        "64/100,33/100",
        "21/100,71/100",
        "15/100,6/100",
        "3127/10000,3290/10000",
    ) {
        Ok(m) => m,
        Err(e) => {
            return Err(e);
        },
    };
    let mut texts: Vec<Vec<&str>> = Vec::new();
    texts.push(vec!["8951/10000", "2664/10000", "-1614/10000"]);
    texts.push(vec!["-7502/10000", "17135/10000", "367/10000"]);
    texts.push(vec!["389/10000", "-685/10000", "10296/10000"]);
    let lms_from_xyz = match constant_matrix(&texts, Ghost(bradford_texts())) {
        Ok(m) => m,
        Err(e) => {
            return Err(e);
        },
    };
    let mut white: Vec<Vec<&str>> = Vec::new();
    white.push(vec!["63190/65536"]);
    white.push(vec!["65536/65536"]);
    white.push(vec!["54061/65536"]);
    let xyz_pcs_white = match constant_matrix(&white, Ghost(pcs_white_texts())) {
        Ok(m) => m,
        Err(e) => {
            return Err(e);
        },
    };
    proof {
        lemma_view_shape(&xyz_from_rgb);
        lemma_view_shape(&lms_from_xyz);
        lemma_view_shape(&xyz_pcs_white);
        assert(shapes_fit(xyz_from_rgb@, lms_from_xyz@, xyz_pcs_white@));
    }
    derive_matrices(xyz_from_rgb, lms_from_xyz, xyz_pcs_white, 65536)
}

} // verus!
