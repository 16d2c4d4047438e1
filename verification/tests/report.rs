use adobe_rgb_matrices::matrix::get_matrix;
use adobe_rgb_matrices::matrix::Matrix;
use adobe_rgb_matrices::report::format_result1;
use adobe_rgb_matrices::report::format_result2;
use adobe_rgb_matrices::report::format_values;
use adobe_rgb_matrices::report::padding_width;
use adobe_rgb_matrices::report::result_heading;
use adobe_rgb_matrices::report::value_heading;

fn mat(rows: Vec<Vec<&str>>) -> Matrix {
    get_matrix(&rows).unwrap()
}

#[test]
fn values_with_exact_decimals() {
    let m = mat(vec![vec!["1/4", "-3/2"]]);
    assert_eq!(format_values(&m, None, Some(2), ""), "  [[1/4, -3/2]]\n= [[0.25, -1.50]]\n");
    assert_eq!(
        format_values(&m, Some(4), Some(2), "\n"),
        "  [[1/4, -6/4]]\n= [[0.25, -1.50]]\n\n"
    );
}

#[test]
fn values_with_cut_off_decimals() {
    let m = mat(vec![vec!["1/4", "-3/2"]]);
    assert_eq!(format_values(&m, None, Some(1), "x"), "  [[1/4, -3/2]]\n≈ [[0.2, -1.5]]\nx");
    let t = mat(vec![vec!["1/3"]]);
    assert_eq!(
        format_values(&t, None, None, ""),
        "  [[1/3]]\n≈ [[0.33333333333333333333]]\n"
    );
}

#[test]
fn values_with_twenty_places_by_default() {
    let m = mat(vec![vec!["1/4"]]);
    assert_eq!(format_values(&m, None, None, ""), "  [[1/4]]\n= [[0.25000000000000000000]]\n");
}

#[test]
fn heading_without_definition() {
    assert_eq!(
        result_heading(1, "P", "RGB -> XYZ", "", ""),
        "(1) \x1b[1;92m[P]\x1b[0m: \x1b[1;96mRGB -> XYZ\x1b[0m matrix\n"
    );
}

#[test]
fn heading_with_definition_and_second_description() {
    // taken: 1 + 1 + 13 + 15 + 17 = 47 columns, so 9 spaces.
    assert_eq!(
        result_heading(7, "A", "XYZ -> PCSXYZ", "[C inv]·[Λ]·[C]", "XYZ -> LMS -> PCSLMS -> PCSXYZ"),
        "(7) \x1b[1;92m[A]\x1b[0m: \x1b[1;96mXYZ -> PCSXYZ\x1b[0m matrix = \x1b[93m[C inv]·[Λ]·[C]\x1b[0m          ( XYZ -> LMS -> PCSLMS -> PCSXYZ )\n"
    );
}

#[test]
fn heading_with_second_description_only() {
    // taken: 2 + 1 + 3 + 0 + 14 = 20 columns, so 36 spaces.
    let expected = format!(
        "(12) \x1b[1;92m[Q]\x1b[0m: \x1b[1;96mabc\x1b[0m matrix{} ( d )\n",
        " ".repeat(36)
    );
    assert_eq!(result_heading(12, "Q", "abc", "", "d"), expected);
}

#[test]
fn heading_too_long_for_padding() {
    let name = "n".repeat(60);
    let expected = format!(
        "(-3) \x1b[1;92m[{}]\x1b[0m: \x1b[1;96md\x1b[0m matrix = \x1b[93mx\x1b[0m ( e )\n",
        name
    );
    assert_eq!(result_heading(-3, &name, "d", "x", "e"), expected);
}

#[test]
fn padding_fills_up_to_column_fifty_six() {
    assert_eq!(padding_width(1, 1, 13, 15), 9);
    assert_eq!(padding_width(2, 1, 3, 0), 36);
    assert_eq!(padding_width(0, 0, 0, 0), 42);
    assert_eq!(padding_width(0, 0, 0, 1), 38);
    assert_eq!(padding_width(10, 10, 10, 9), 0);
    assert_eq!(padding_width(10, 10, 10, 8), 1);
    assert_eq!(padding_width(usize::MAX, usize::MAX, usize::MAX, usize::MAX), 0);
    assert_eq!(padding_width(56, 0, 0, 0), 0);
}

#[test]
fn heading_of_a_vector() {
    assert_eq!(
        value_heading("■", "XYZ of white", "D65", ""),
        "■ \x1b[1;96mXYZ of white\x1b[0m (D65)\n"
    );
    assert_eq!(
        value_heading("□", "LMS of white", "D65", "[C]·[■]"),
        "□ \x1b[1;96mLMS of white\x1b[0m (D65) = \x1b[93m[C]·[■]\x1b[0m\n"
    );
}

#[test]
fn report_on_a_matrix() {
    let m = mat(vec![vec!["1/2"], vec!["2"]]);
    assert_eq!(
        format_result1(3, "C", "XYZ -> LMS", "", "", &m, Some(10), Some(1), "\n"),
        "(3) \x1b[1;92m[C]\x1b[0m: \x1b[1;96mXYZ -> LMS\x1b[0m matrix\n  [[5/10], [20/10]]\n= [[0.5], [2.0]]\n\n"
    );
    assert_eq!(
        format_result2("●", "white", "D50", "", &m, None, Some(0), ""),
        "● \x1b[1;96mwhite\x1b[0m (D50)\n  [[1/2], [2]]\n≈ [[0], [2]]\n"
    );
}
