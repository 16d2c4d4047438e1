use adobe_rgb_matrices::error::MatrixError;
use adobe_rgb_matrices::inverse::inverse;
use adobe_rgb_matrices::matrix::get_matrix;
use adobe_rgb_matrices::matrix::identity;
use adobe_rgb_matrices::matrix::is_exact;
use adobe_rgb_matrices::matrix::multiply;
use adobe_rgb_matrices::matrix::round_to_denominator;
use adobe_rgb_matrices::matrix::sum_columns;
use adobe_rgb_matrices::matrix::Matrix;
use adobe_rgb_matrices::pipeline::adobe_rgb_1998;
use adobe_rgb_matrices::pipeline::Chromaticity;
use adobe_rgb_matrices::rational::Rational;
use adobe_rgb_matrices::pipeline::compute_primary_matrix;
use adobe_rgb_matrices::pipeline::derive_matrices;
use adobe_rgb_matrices::pipeline::find_comma;
use adobe_rgb_matrices::pipeline::parse_chromaticity;
use adobe_rgb_matrices::pipeline::primary_matrix_of;
use adobe_rgb_matrices::pipeline::similarity_transform;
use adobe_rgb_matrices::render::to_decimal_string;
use adobe_rgb_matrices::render::to_string;
use adobe_rgb_matrices::render::to_string_denom;

fn mat(rows: Vec<Vec<&str>>) -> Matrix {
    get_matrix(&rows).unwrap()
}

fn adobe_primaries() -> Matrix {
    compute_primary_matrix("64/100,33/100", "21/100,71/100", "15/100,6/100", "3127/10000,3290/10000")
        .unwrap()
}

fn bradford() -> Matrix {
    mat(vec![
        vec!["8951/10000", "2664/10000", "-1614/10000"],
        vec!["-7502/10000", "17135/10000", "367/10000"],
        vec!["389/10000", "-685/10000", "10296/10000"],
    ])
}

fn pcs_white() -> Matrix {
    mat(vec![vec!["63190/65536"], vec!["65536/65536"], vec!["54061/65536"]])
}

#[test]
fn primary_matrix_first_entry() {
    let p = adobe_primaries();
    assert_eq!(p.entry(0, 0).to_string(), "573536/994567");
}

#[test]
fn primary_matrix_of_adobe_rgb() {
    let p = adobe_primaries();
    let expected = mat(vec![
        vec!["573536/994567", "263643/1420810", "187206/994567"],
        vec!["591459/1989134", "6239551/9945670", "374412/4972835"],
        vec!["53769/1989134", "351524/4972835", "4929758/4972835"],
    ]);
    assert!(p.equals(&expected));
}

#[test]
fn primary_matrix_columns_sum_to_the_white_point() {
    let p = adobe_primaries();
    let white = sum_columns(&p);
    assert!(white.equals(&mat(vec![vec!["3127/3290"], vec!["3290/3290"], vec!["3583/3290"]])));
    assert_eq!(to_string_denom(&white, 3290), "[[3127/3290], [3290/3290], [3583/3290]]");
}

#[test]
fn rounded_matrix_columns_sum_to_the_pcs_white() {
    let b = adobe_rgb_1998().unwrap();
    assert!(sum_columns(&b.pcsxyz1_from_rgb).equals(&pcs_white()));
    assert!(is_exact(&b.pcsxyz1_from_rgb, 16));
    assert_eq!(
        to_string_denom(&b.pcsxyz1_from_rgb, 65536),
        "[[39960/65536, 13453/65536, 9777/65536], [20389/65536, 41004/65536, 4143/65536], [1276/65536, 3989/65536, 48796/65536]]"
    );
}

#[test]
fn chain_of_adobe_rgb() {
    let b = adobe_rgb_1998().unwrap();
    assert!(b.xyz_from_rgb.equals(&adobe_primaries()));
    assert!(b.lms_from_xyz.equals(&bradford()));
    assert!(b.xyz_pcs_white.equals(&pcs_white()));
    assert!(b.xyz_white.equals(&sum_columns(&b.xyz_from_rgb)));
    assert!(b.lms_white.equals(&multiply(&b.lms_from_xyz, &b.xyz_white).unwrap()));
    assert!(b.lms_pcs_white.equals(&multiply(&b.lms_from_xyz, &b.xyz_pcs_white).unwrap()));
    assert!(b.pcsxyz_from_xyz.equals(
        &multiply(&multiply(&b.xyz_from_lms, &b.pcslms_from_lms).unwrap(), &b.lms_from_xyz).unwrap()
    ));
    assert!(b.pcsxyz_from_rgb.equals(&multiply(&b.pcsxyz_from_xyz, &b.xyz_from_rgb).unwrap()));
    assert!(b.pcsxyz1_from_rgb.equals(&round_to_denominator(&b.pcsxyz_from_rgb, 65536)));
}

#[test]
fn inverses_in_the_chain() {
    let b = adobe_rgb_1998().unwrap();
    let one = identity(3);
    assert!(multiply(&b.xyz_from_rgb, &b.rgb_from_xyz).unwrap().equals(&one));
    assert!(multiply(&b.lms_from_xyz, &b.xyz_from_lms).unwrap().equals(&one));
    assert!(multiply(&b.pcslms_from_lms, &b.lms_from_pcslms).unwrap().equals(&one));
    assert!(multiply(&b.pcsxyz1_from_rgb, &b.rgb_from_pcsxyz1).unwrap().equals(&one));
    assert!(b.lms_from_pcslms.equals(&inverse(&b.pcslms_from_lms).unwrap()));
    assert!(b.xyz_from_pcsxyz.equals(&inverse(&b.pcsxyz_from_xyz).unwrap()));
    assert!(b.rgb_from_pcsxyz.equals(&inverse(&b.pcsxyz_from_rgb).unwrap()));
    assert!(b.rgb_from_xyz.equals(&inverse(&b.xyz_from_rgb).unwrap()));
    assert!(b.xyz_from_lms.equals(&inverse(&b.lms_from_xyz).unwrap()));
}

#[test]
fn rounded_and_exact_inverse_differ() {
    let b = adobe_rgb_1998().unwrap();
    assert!(!b.pcsxyz1_from_rgb.equals(&b.pcsxyz_from_rgb));
    assert!(!b.rgb_from_pcsxyz1.equals(&b.rgb_from_pcsxyz));
    assert!(!b.rgb_from_pcsxyz1.equals(&round_to_denominator(&b.rgb_from_pcsxyz, 65536)));
}

#[test]
fn whites_in_the_cone_response_space() {
    let b = adobe_rgb_1998().unwrap();
    assert!(is_exact(&b.lms_from_xyz, 4));
    assert!(is_exact(&b.xyz_pcs_white, 16));
    assert!(is_exact(&b.lms_pcs_white, 20));
    assert!(!is_exact(&b.xyz_white, 20));
    assert_eq!(
        to_string_denom(&b.lms_white, 32900000),
        "[[30971375/32900000], [34230357/32900000], [35853321/32900000]]"
    );
    assert_eq!(
        to_string_denom(&b.lms_pcs_white, 655360000),
        "[[652947140/655360000], [668748367/655360000], [536300806/655360000]]"
    );
    assert_eq!(to_decimal_string(&b.xyz_pcs_white, 16), "[[0.9642028808593750], [1.0000000000000000], [0.8249053955078125]]");
}

#[test]
fn adaptation_scaling_is_diagonal() {
    let b = adobe_rgb_1998().unwrap();
    assert_eq!(
        to_string(&b.lms_from_pcslms),
        "[[10148700160/10740980453, 0, 0], [0, 160237191168/157155866245, 0], [0, 0, 83917258752/63015344705]]"
    );
    assert_eq!(
        to_string(&b.pcslms_from_lms),
        "[[10740980453/10148700160, 0, 0], [0, 157155866245/160237191168, 0], [0, 0, 63015344705/83917258752]]"
    );
    assert_eq!(b.rgb_from_pcsxyz1.entry(0, 0).to_string(), "130043396554752/66263161929401");
}

#[test]
fn similarity_transform_conjugates() {
    let c = mat(vec![vec!["1", "1"], vec!["0", "1"]]);
    let d = mat(vec![vec!["2", "0"], vec!["0", "3"]]);
    let s = similarity_transform(&c, &d).unwrap();
    assert_eq!(to_string(&s), "[[2, -1], [0, 3]]");
    let by_hand = multiply(&multiply(&inverse(&c).unwrap(), &d).unwrap(), &c).unwrap();
    assert!(s.equals(&by_hand));
}

#[test]
fn similarity_transform_failures() {
    let c = mat(vec![vec!["1", "1"], vec!["0", "1"]]);
    let wide = mat(vec![vec!["1", "2", "3"], vec!["4", "5", "6"]]);
    let singular = mat(vec![vec!["1", "1"], vec!["1", "1"]]);
    let big = mat(vec![vec!["1", "0", "0"], vec!["0", "1", "0"], vec!["0", "0", "1"]]);
    assert_eq!(similarity_transform(&wide, &c).err(), Some(MatrixError::DimensionMismatch));
    assert_eq!(similarity_transform(&singular, &c).err(), Some(MatrixError::SingularMatrix));
    assert_eq!(similarity_transform(&c, &big).err(), Some(MatrixError::DimensionMismatch));
    assert_eq!(similarity_transform(&c, &wide).err(), Some(MatrixError::DimensionMismatch));
}

#[test]
fn chromaticity_from_text() {
    let c = parse_chromaticity("64/100,33/100").unwrap();
    assert_eq!(c.x().to_string(), "16/25");
    assert_eq!(c.y().to_string(), "33/100");
    let d = parse_chromaticity("1/2,1/3,1/4").unwrap();
    assert_eq!(d.x().to_string(), "1/2");
    assert_eq!(d.y().to_string(), "1/3");
    assert!(parse_chromaticity("1/2").is_none());
    assert!(parse_chromaticity("1/2,").is_none());
    assert!(parse_chromaticity(",1/2").is_none());
    assert!(parse_chromaticity("1/2,0").is_none());
    assert!(parse_chromaticity("a,1").is_none());
    assert!(parse_chromaticity("").is_none());
}

#[test]
fn commas_are_found() {
    assert_eq!(find_comma("ab,cd,e", 0), 2);
    assert_eq!(find_comma("ab,cd,e", 2), 2);
    assert_eq!(find_comma("ab,cd,e", 3), 5);
    assert_eq!(find_comma("ab,cd,e", 6), 7);
    assert_eq!(find_comma("", 0), 0);
}

#[test]
fn primary_matrix_failures() {
    assert_eq!(
        compute_primary_matrix("64/100;33/100", "21/100,71/100", "15/100,6/100", "1/3,1/3").err(),
        Some(MatrixError::Malformed)
    );
    assert_eq!(
        compute_primary_matrix("64/100,33/100", "21/100,71/100", "15/100,0", "1/3,1/3").err(),
        Some(MatrixError::Malformed)
    );
    assert_eq!(
        compute_primary_matrix("1/3,1/3", "1/3,1/3", "15/100,6/100", "1/3,1/3").err(),
        Some(MatrixError::SingularMatrix)
    );
}

#[test]
fn primary_matrix_from_chromaticities() {
    let red = parse_chromaticity("1,1").unwrap();
    let green = parse_chromaticity("0,1").unwrap();
    let blue = parse_chromaticity("0,-1").unwrap();
    let white = parse_chromaticity("1/3,1/3").unwrap();
    // rows of the transposed matrix: (1, 1, -1), (0, 1, 0), (0, 1, -2)
    let p = primary_matrix_of(&red, &green, &blue, &white).unwrap();
    assert!(sum_columns(&p).equals(&mat(vec![vec!["1"], vec!["1"], vec!["1"]])));
    assert_eq!(to_string(&p), "[[1, 0, 0], [1, 1, -1], [-1, 0, 2]]");
}

#[test]
fn derive_matrices_failures() {
    let p = adobe_primaries();
    let wide = mat(vec![vec!["1", "2", "3"], vec!["4", "5", "6"]]);
    let row = mat(vec![vec!["1", "2", "3"]]);
    let singular = mat(vec![vec!["1", "2", "3"], vec!["4", "5", "6"], vec!["7", "8", "9"]]);
    let zero_white = mat(vec![vec!["0"], vec!["0"], vec!["0"]]);
    assert_eq!(
        derive_matrices(wide, bradford(), pcs_white(), 65536).err(),
        Some(MatrixError::DimensionMismatch)
    );
    assert_eq!(
        derive_matrices(p.duplicate(), bradford(), row, 65536).err(),
        Some(MatrixError::DimensionMismatch)
    );
    assert_eq!(
        derive_matrices(p.duplicate(), mat(vec![vec!["1"]]), pcs_white(), 65536).err(),
        Some(MatrixError::DimensionMismatch)
    );
    assert_eq!(
        derive_matrices(singular.duplicate(), bradford(), pcs_white(), 65536).err(),
        Some(MatrixError::SingularMatrix)
    );
    assert_eq!(
        derive_matrices(p.duplicate(), singular, pcs_white(), 65536).err(),
        Some(MatrixError::SingularMatrix)
    );
    assert_eq!(
        derive_matrices(p.duplicate(), bradford(), zero_white, 65536).err(),
        Some(MatrixError::SingularMatrix)
    );
    assert!(derive_matrices(p, bradford(), pcs_white(), 1).unwrap().pcsxyz1_from_rgb.equals(&identity(3)));
    assert_eq!(
        derive_matrices(mat(vec![vec!["1/4"]]), mat(vec![vec!["1"]]), mat(vec![vec!["1/4"]]), 1)
            .err(),
        Some(MatrixError::SingularMatrix)
    );
}

#[test]
fn derive_matrices_with_one_dimension() {
    let b = derive_matrices(mat(vec![vec!["2"]]), mat(vec![vec!["3"]]), mat(vec![vec!["5"]]), 10)
        .unwrap();
    assert_eq!(to_string(&b.rgb_from_xyz), "[[1/2]]");
    assert_eq!(to_string(&b.xyz_from_lms), "[[1/3]]");
    assert_eq!(to_string(&b.xyz_white), "[[2]]");
    assert_eq!(to_string(&b.lms_white), "[[6]]");
    assert_eq!(to_string(&b.lms_pcs_white), "[[15]]");
    assert_eq!(to_string(&b.pcslms_from_lms), "[[5/2]]");
    assert_eq!(to_string(&b.lms_from_pcslms), "[[2/5]]");
    assert_eq!(to_string(&b.pcsxyz_from_xyz), "[[5/2]]");
    assert_eq!(to_string(&b.xyz_from_pcsxyz), "[[2/5]]");
    assert_eq!(to_string(&b.pcsxyz_from_rgb), "[[5]]");
    assert_eq!(to_string(&b.rgb_from_pcsxyz), "[[1/5]]");
    assert_eq!(to_string(&b.pcsxyz1_from_rgb), "[[5]]");
    assert_eq!(to_string(&b.rgb_from_pcsxyz1), "[[1/5]]");
}

#[test]
fn chromaticity_needs_a_luminance() {
    let x = Rational::parse("1/3").unwrap();
    let y = Rational::parse("2/3").unwrap();
    let zero = Rational::parse("0").unwrap();
    assert!(Chromaticity::new(x.clone(), zero).is_none());
    let c = Chromaticity::new(x, y).unwrap();
    assert_eq!(c.x().to_string(), "1/3");
    assert_eq!(c.y().to_string(), "2/3");
}
