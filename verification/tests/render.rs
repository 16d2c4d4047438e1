use adobe_rgb_matrices::matrix::get_matrix;
use adobe_rgb_matrices::matrix::Matrix;
use adobe_rgb_matrices::render::digit_to_char;
use adobe_rgb_matrices::render::render_entry;
use adobe_rgb_matrices::render::to_decimal_string;
use adobe_rgb_matrices::render::to_string;
use adobe_rgb_matrices::render::to_string_denom;
use adobe_rgb_matrices::render::to_string_f;
use adobe_rgb_matrices::render::EntryStyle;
use adobe_rgb_matrices::rational::Rational;

fn mat(rows: Vec<Vec<&str>>) -> Matrix {
    get_matrix(&rows).unwrap()
}

#[test]
fn a_third_is_cut_off_not_rounded() {
    assert_eq!(to_decimal_string(&mat(vec![vec!["1/3"]]), 3), "[[0.333]]");
    assert_eq!(to_decimal_string(&mat(vec![vec!["-1/3"]]), 3), "[[-0.333]]");
    assert_eq!(to_decimal_string(&mat(vec![vec!["2/3"]]), 3), "[[0.666]]");
    assert_eq!(to_decimal_string(&mat(vec![vec!["-2/3"]]), 5), "[[-0.66666]]");
}

#[test]
fn a_quarter_in_decimals() {
    let m = mat(vec![vec!["1/4"]]);
    assert_eq!(to_decimal_string(&m, 2), "[[0.25]]");
    assert_eq!(to_decimal_string(&m, 1), "[[0.2]]");
    assert_eq!(to_decimal_string(&m, 4), "[[0.2500]]");
}

#[test]
fn decimals_without_places() {
    let m = mat(vec![vec!["7/2", "-7/2", "0", "12"]]);
    assert_eq!(to_decimal_string(&m, 0), "[[3, -3, 0, 12]]");
    assert_eq!(to_decimal_string(&m, -4), "[[3, -3, 0, 12]]");
}

#[test]
fn decimals_of_a_matrix() {
    let m = mat(vec![vec!["8951/10000", "-1614/10000"], vec!["123456789/1000", "-1/1000"]]);
    assert_eq!(to_decimal_string(&m, 4), "[[0.8951, -0.1614], [123456.7890, -0.0010]]");
    assert_eq!(to_decimal_string(&m, 2), "[[0.89, -0.16], [123456.78, -0.00]]");
}

#[test]
fn twenty_places() {
    let m = mat(vec![vec!["573536/994567"]]);
    assert_eq!(to_decimal_string(&m, 20), "[[0.57666904291013074031]]");
}

#[test]
fn fractions_as_text() {
    let m = mat(vec![vec!["3/6", "-4/2"], vec!["0", "10/4"]]);
    assert_eq!(to_string(&m), "[[1/2, -2], [0, 5/2]]");
    assert_eq!(to_string_f(&m, EntryStyle::Fraction), to_string(&m));
}

#[test]
fn fractions_over_a_common_denominator() {
    let m = mat(vec![vec!["63190/65536"], vec!["65536/65536"], vec!["54061/65536"]]);
    assert_eq!(to_string(&m), "[[31595/32768], [1], [54061/65536]]");
    assert_eq!(to_string_denom(&m, 65536), "[[63190/65536], [65536/65536], [54061/65536]]");
    assert_eq!(to_string_denom(&m, 2), "[[31595/16384/2], [2/2], [54061/32768/2]]");
}

#[test]
fn entries_in_each_style() {
    let x = Rational::parse("-5/4").unwrap();
    assert_eq!(render_entry(&x, EntryStyle::Fraction), "-5/4");
    assert_eq!(render_entry(&x, EntryStyle::OverDenominator(8)), "-10/8");
    assert_eq!(render_entry(&x, EntryStyle::Decimal(3)), "-1.250");
    assert_eq!(x.to_string(), "-5/4");
}

#[test]
fn digits_as_characters() {
    let all: Vec<char> = (0u8..10).map(digit_to_char).collect();
    assert_eq!(all, vec!['0', '1', '2', '3', '4', '5', '6', '7', '8', '9']);
}
