use adobe_rgb_matrices::error::MatrixError;
use adobe_rgb_matrices::inverse::inverse;
use adobe_rgb_matrices::matrix::diag;
use adobe_rgb_matrices::matrix::get_matrix;
use adobe_rgb_matrices::matrix::identity;
use adobe_rgb_matrices::matrix::is_exact;
use adobe_rgb_matrices::matrix::multiply;
use adobe_rgb_matrices::matrix::multiplyabt;
use adobe_rgb_matrices::matrix::round_to_denominator;
use adobe_rgb_matrices::matrix::row_scale;
use adobe_rgb_matrices::matrix::row_scale_add;
use adobe_rgb_matrices::matrix::row_swap;
use adobe_rgb_matrices::matrix::sum_columns;
use adobe_rgb_matrices::matrix::transpose;
use adobe_rgb_matrices::matrix::Matrix;
use adobe_rgb_matrices::rational::Rational;
use adobe_rgb_matrices::render::to_string;

fn mat(rows: Vec<Vec<&str>>) -> Matrix {
    get_matrix(&rows).unwrap()
}

#[test]
fn identity_has_ones_on_the_diagonal() {
    assert_eq!(to_string(&identity(1)), "[[1]]");
    assert_eq!(to_string(&identity(3)), "[[1, 0, 0], [0, 1, 0], [0, 0, 1]]");
    assert!(identity(2).equals(&mat(vec![vec!["1", "0"], vec!["0", "1"]])));
}

#[test]
fn get_matrix_reduces_fractions() {
    let m = mat(vec![vec!["2/4", "-3/9"], vec!["10/5", "0/7"]]);
    assert_eq!(to_string(&m), "[[1/2, -1/3], [2, 0]]");
    assert_eq!(m.row_count(), 2);
    assert_eq!(m.col_count(), 2);
    assert_eq!(m.entry(0, 1).to_string(), "-1/3");
}

#[test]
fn get_matrix_rejects_bad_input() {
    assert_eq!(get_matrix(&vec![]).err(), Some(MatrixError::DimensionMismatch));
    assert_eq!(get_matrix(&vec![vec![]]).err(), Some(MatrixError::DimensionMismatch));
    assert_eq!(
        get_matrix(&vec![vec!["1", "2"], vec!["3"]]).err(),
        Some(MatrixError::DimensionMismatch)
    );
    assert_eq!(get_matrix(&vec![vec!["1", "x"]]).err(), Some(MatrixError::Malformed));
    assert_eq!(get_matrix(&vec![vec!["1/0"]]).err(), Some(MatrixError::Malformed));
    assert_eq!(get_matrix(&vec![vec![""]]).err(), Some(MatrixError::Malformed));
}

#[test]
fn from_rows_wants_a_rectangle() {
    let half = Rational::parse("1/2").unwrap();
    let third = Rational::parse("1/3").unwrap();
    assert!(Matrix::from_rows(vec![]).is_none());
    assert!(Matrix::from_rows(vec![vec![]]).is_none());
    assert!(Matrix::from_rows(vec![vec![half.clone()], vec![]]).is_none());
    let m = Matrix::from_rows(vec![vec![half, third]]).unwrap();
    assert_eq!(to_string(&m), "[[1/2, 1/3]]");
}

#[test]
fn transpose_swaps_rows_and_columns() {
    let m = mat(vec![vec!["1", "2", "3"], vec!["4", "5", "6"]]);
    let t = transpose(&m);
    assert_eq!(to_string(&t), "[[1, 4], [2, 5], [3, 6]]");
    assert!(transpose(&t).equals(&m));
}

#[test]
fn multiply_is_the_matrix_product() {
    let a = mat(vec![vec!["1", "2"], vec!["3", "4"]]);
    let b = mat(vec![vec!["1/2", "0"], vec!["1/3", "-1"]]);
    let p = multiply(&a, &b).unwrap();
    assert_eq!(to_string(&p), "[[7/6, -2], [17/6, -4]]");
    let q = multiply(&b, &a).unwrap();
    assert_eq!(to_string(&q), "[[1/2, 1], [-8/3, -10/3]]");
}

#[test]
fn multiply_with_a_column_vector() {
    let a = mat(vec![vec!["1", "2", "3"], vec!["4", "5", "6"]]);
    let v = mat(vec![vec!["1"], vec!["1/2"], vec!["1/3"]]);
    let p = multiply(&a, &v).unwrap();
    assert_eq!(to_string(&p), "[[3], [17/2]]");
}

#[test]
fn multiply_rejects_shapes_that_do_not_fit() {
    let a = mat(vec![vec!["1", "2", "3"], vec!["4", "5", "6"]]);
    assert_eq!(multiply(&a, &a).err(), Some(MatrixError::DimensionMismatch));
    let b = mat(vec![vec!["1", "2"]]);
    assert_eq!(multiplyabt(&a, &b).err(), Some(MatrixError::DimensionMismatch));
}

#[test]
fn multiplyabt_multiplies_with_the_transpose() {
    let a = mat(vec![vec!["1", "2"], vec!["3", "4"]]);
    let b = mat(vec![vec!["5", "6"], vec!["7", "8"]]);
    let p = multiplyabt(&a, &b).unwrap();
    assert_eq!(to_string(&p), "[[17, 23], [39, 53]]");
    assert!(p.equals(&multiply(&a, &transpose(&b)).unwrap()));
}

#[test]
fn diag_puts_the_vector_on_the_diagonal() {
    let v = vec![Rational::parse("1/2").unwrap(), Rational::parse("-3").unwrap()];
    assert_eq!(to_string(&diag(&v)), "[[1/2, 0], [0, -3]]");
}

#[test]
fn sum_columns_adds_up_each_row() {
    let m = mat(vec![vec!["1/2", "1/3", "1/6"], vec!["1", "-1", "5/7"]]);
    assert_eq!(to_string(&sum_columns(&m)), "[[1], [5/7]]");
}

#[test]
fn row_operations_change_one_row() {
    let mut m = mat(vec![vec!["1", "2"], vec!["3", "4"], vec!["5", "6"]]);
    row_scale(&mut m, 1, &Rational::parse("1/2").unwrap());
    assert_eq!(to_string(&m), "[[1, 2], [3/2, 2], [5, 6]]");
    row_scale_add(&mut m, 0, &Rational::parse("-5").unwrap(), 2);
    assert_eq!(to_string(&m), "[[1, 2], [3/2, 2], [0, -4]]");
    row_swap(&mut m, 0, 2);
    assert_eq!(to_string(&m), "[[0, -4], [3/2, 2], [1, 2]]");
    row_scale_add(&mut m, 1, &Rational::parse("2").unwrap(), 1);
    assert_eq!(to_string(&m), "[[0, -4], [9/2, 6], [1, 2]]");
}

#[test]
fn inverse_of_a_two_by_two_matrix() {
    let m = mat(vec![vec!["1", "2"], vec!["3", "4"]]);
    let inv = inverse(&m).unwrap();
    assert_eq!(to_string(&inv), "[[-2, 1], [3/2, -1/2]]");
}

#[test]
fn inverse_needs_a_row_exchange() {
    let m = mat(vec![vec!["0", "1", "2"], vec!["1", "0", "3"], vec!["4", "-3", "8"]]);
    let inv = inverse(&m).unwrap();
    assert_eq!(to_string(&inv), "[[-9/2, 7, -3/2], [-2, 4, -1], [3/2, -2, 1/2]]");
    assert!(multiply(&m, &inv).unwrap().equals(&identity(3)));
    assert!(multiply(&inv, &m).unwrap().equals(&identity(3)));
}

#[test]
fn product_with_the_inverse_is_the_identity() {
    let m = mat(vec![
        vec!["8951/10000", "2664/10000", "-1614/10000"],
        vec!["-7502/10000", "17135/10000", "367/10000"],
        vec!["389/10000", "-685/10000", "10296/10000"],
    ]);
    let inv = inverse(&m).unwrap();
    assert!(multiply(&m, &inv).unwrap().equals(&identity(3)));
    assert!(multiply(&inv, &m).unwrap().equals(&identity(3)));
}

#[test]
fn inverse_of_the_inverse_is_the_matrix() {
    let m = mat(vec![vec!["2", "1/3", "0"], vec!["-1", "5", "7/2"], vec!["0", "0", "1/9"]]);
    let inv = inverse(&m).unwrap();
    assert!(!inv.equals(&m));
    assert!(inverse(&inv).unwrap().equals(&m));
}

#[test]
fn inverse_of_a_one_by_one_matrix() {
    let m = mat(vec![vec!["-3/7"]]);
    assert_eq!(to_string(&inverse(&m).unwrap()), "[[-7/3]]");
}

#[test]
fn inverse_detects_a_singular_matrix() {
    let m = mat(vec![vec!["1", "2"], vec!["2", "4"]]);
    assert_eq!(inverse(&m).err(), Some(MatrixError::SingularMatrix));
    let z = mat(vec![vec!["0"]]);
    assert_eq!(inverse(&z).err(), Some(MatrixError::SingularMatrix));
    let r = mat(vec![vec!["1", "2", "3"], vec!["4", "5", "6"], vec!["7", "8", "9"]]);
    assert_eq!(inverse(&r).err(), Some(MatrixError::SingularMatrix));
}

#[test]
fn inverse_rejects_a_matrix_that_is_not_square() {
    let m = mat(vec![vec!["1", "2", "3"], vec!["4", "5", "6"]]);
    assert_eq!(inverse(&m).err(), Some(MatrixError::DimensionMismatch));
}

#[test]
fn rounding_ties_go_away_from_zero() {
    let m = mat(vec![vec!["1/2", "-1/2"]]);
    let r = round_to_denominator(&m, 1);
    assert_eq!(to_string(&r), "[[1, -1]]");
}

#[test]
fn rounding_to_a_denominator() {
    let m = mat(vec![vec!["1/3", "-1/3", "5/8", "-5/8", "7/16", "2"]]);
    let r = round_to_denominator(&m, 4);
    assert_eq!(to_string(&r), "[[1/4, -1/4, 3/4, -3/4, 1/2, 2]]");
    let s = round_to_denominator(&m, 65536);
    assert_eq!(to_string(&s), "[[21845/65536, -21845/65536, 5/8, -5/8, 7/16, 2]]");
}

#[test]
fn a_quarter_is_exact_from_two_places_on() {
    let m = mat(vec![vec!["1/4"]]);
    assert!(!is_exact(&m, 1));
    assert!(is_exact(&m, 2));
    assert!(is_exact(&m, 3));
    assert!(is_exact(&m, 20));
    assert!(!is_exact(&m, 0));
}

#[test]
fn is_exact_looks_at_every_entry() {
    let m = mat(vec![vec!["1/4", "1/8"], vec!["3", "-1/2"]]);
    assert!(!is_exact(&m, 2));
    assert!(is_exact(&m, 3));
    let t = mat(vec![vec!["1/4", "1/3"]]);
    assert!(!is_exact(&t, 20));
}

#[test]
fn is_exact_with_negative_places() {
    let m = mat(vec![vec!["100", "-2500"]]);
    assert!(is_exact(&m, -2));
    assert!(!is_exact(&m, -3));
}

#[test]
fn equals_compares_shape_and_entries() {
    let a = mat(vec![vec!["1/2", "2"]]);
    let b = mat(vec![vec!["2/4", "4/2"]]);
    let c = mat(vec![vec!["1/2"], vec!["2"]]);
    let d = mat(vec![vec!["1/2", "3"]]);
    assert!(a.equals(&b));
    assert!(!a.equals(&c));
    assert!(!a.equals(&d));
    assert!(a.duplicate().equals(&a));
}

#[test]
fn large_numbers_survive() {
    let m = mat(vec![vec![
        "123456789012345678901234567891/7",
        "-340282366920938463463374607431768211456",
    ]]);
    assert_eq!(
        to_string(&m),
        "[[123456789012345678901234567891/7, -340282366920938463463374607431768211456]]"
    );
    let two = mat(vec![vec!["2"], vec!["1/2"]]);
    let p = multiply(&m, &two).unwrap();
    assert_eq!(to_string(&p), "[[-1190988283976371044097119768208719604314/7]]");
}

#[test]
fn numbers_at_the_edge_of_a_byte_survive() {
    let m = mat(vec![vec!["127", "128", "255", "256", "-128", "-129", "-255", "-256", "32768"]]);
    assert_eq!(to_string(&m), "[[127, 128, 255, 256, -128, -129, -255, -256, 32768]]");
    let one = mat(vec![vec!["1"]; 9]);
    assert_eq!(to_string(&multiply(&m, &one).unwrap()), "[[32766]]");
}
