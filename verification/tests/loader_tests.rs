use matrix_loader::LoadError;
use matrix_loader::Matrix;
use matrix_loader::fill_matrix;
use matrix_loader::load_text;
use matrix_loader::parse_row;

fn to_array(m: &Matrix) -> ndarray::Array2<f64> {
    let rows = m.num_rows();
    let cols = m.num_cols();
    let mut flat: Vec<f64> = Vec::with_capacity(rows * cols);
    for i in 0..rows {
        for j in 0..cols {
            flat.push(m.token(i, j).parse::<f64>().unwrap());
        }
    }
    ndarray::Array2::from_shape_vec((rows, cols), flat).unwrap()
}

#[test]
fn fills_matrix_correctly() {
    let actual_matrix = "1,0,0\n-2,1,0\n0,0,1";
    let actual_matrix = fill_matrix(&actual_matrix).expect("error reading from file.");
    let expected_matrix = ndarray::Array2::from_shape_vec(
        (3, 3),
        vec![1., 0., 0., -2., 1., 0., 0., 0., 1.],
    )
    .unwrap();
    assert_eq!(expected_matrix, to_array(&actual_matrix));
}

#[test]
fn identity_like_matrix_in_row_major_order() {
    let m = fill_matrix("1,0,0\n-2,1,0\n0,0,1").unwrap();
    assert_eq!(m.num_rows(), 3);
    assert_eq!(m.num_cols(), 3);
    let expected = [["1", "0", "0"], ["-2", "1", "0"], ["0", "0", "1"]];
    for i in 0..3 {
        for j in 0..3 {
            assert_eq!(m.token(i, j).as_str(), expected[i][j]);
        }
    }
}

#[test]
fn empty_input_is_reported() {
    assert!(matches!(fill_matrix(""), Err(LoadError::EmptyInput)));
    assert!(matches!(load_text(""), Err(LoadError::EmptyInput)));
}

#[test]
fn whitespace_only_input_is_empty() {
    assert!(matches!(load_text("  \t\n  "), Err(LoadError::EmptyInput)));
}

#[test]
fn blank_row_is_not_empty_input() {
    // A lone newline survives trimming as no text at all, but an explicit
    // blank row between others is a parse failure, not emptiness.
    assert!(matches!(fill_matrix("1\n\n2"), Err(LoadError::TokenParseError)));
}

#[test]
fn ragged_rows_are_reported() {
    assert!(matches!(fill_matrix("1,2\n3"), Err(LoadError::RaggedMatrix)));
}

#[test]
fn longer_later_row_is_ragged() {
    assert!(matches!(fill_matrix("1\n2,3"), Err(LoadError::RaggedMatrix)));
}

#[test]
fn bad_token_is_reported() {
    assert!(matches!(fill_matrix("1,x,3"), Err(LoadError::TokenParseError)));
}

#[test]
fn single_cell_matrix() {
    let m = fill_matrix("5").unwrap();
    assert_eq!(m.num_rows(), 1);
    assert_eq!(m.num_cols(), 1);
    assert_eq!(m.token(0, 0).as_str(), "5");
    assert_eq!(m.token(0, 0).parse::<f64>().unwrap(), 5.0);
}

#[test]
fn surrounding_whitespace_is_trimmed() {
    let m = load_text("  \n1,2\n3,4\n\t ").unwrap();
    assert_eq!(m.num_rows(), 2);
    assert_eq!(m.num_cols(), 2);
    assert_eq!(m.token(1, 0).as_str(), "3");
}

#[test]
fn space_inside_a_row_is_not_trimmed() {
    assert!(matches!(fill_matrix("1, 2"), Err(LoadError::TokenParseError)));
}

#[test]
fn token_error_on_first_line_wins_over_later_ragged_line() {
    assert!(matches!(fill_matrix("x,y\n1"), Err(LoadError::TokenParseError)));
}

#[test]
fn ragged_line_wins_over_later_bad_token() {
    assert!(matches!(fill_matrix("1,2\n3\nx"), Err(LoadError::RaggedMatrix)));
}

#[test]
fn numeric_spellings_are_accepted() {
    let row = parse_row("1e5,-2.5E-3,+.5,1.,0.25,9e+2,3E-4").unwrap();
    let values: Vec<f64> = row.iter().map(|t| t.parse::<f64>().unwrap()).collect();
    assert_eq!(values, vec![1e5, -2.5e-3, 0.5, 1.0, 0.25, 900.0, 3e-4]);
}

#[test]
fn non_finite_spellings_are_rejected() {
    // Only sign, digits, point and exponent make a cell; the word spellings
    // of non-finite values are not numeric literals here.
    for bad in ["inf", "-inf", "Infinity", "infinity", "+INF", "NaN", "nan"] {
        assert!(
            matches!(parse_row(bad), Err(LoadError::TokenParseError)),
            "token {:?} should be rejected",
            bad
        );
    }
}

#[test]
fn malformed_tokens_are_rejected() {
    for bad in [
        ".", "-", "+", "--1", "1e", "e5", "1.2.3", "1e2.5", "0x10", "in", "infinit", "1_000",
        " 1", "1 ", "",
    ] {
        assert!(
            matches!(parse_row(bad), Err(LoadError::TokenParseError)),
            "token {:?} should be rejected",
            bad
        );
    }
}

#[test]
fn every_accepted_token_parses_as_f64() {
    // The lexical check agrees with the standard library's parser on these.
    for good in [
        "0", "007", "+1", "-0.0", ".5", "5.", "1e9", "1E9", "-1e-9", "1.e5", ".5e1",
    ] {
        let row = parse_row(good).expect("token should be accepted");
        assert_eq!(row.len(), 1);
        assert!(row[0].parse::<f64>().is_ok(), "token {:?} should parse", good);
    }
}

#[test]
fn empty_token_between_commas_is_rejected() {
    assert!(matches!(fill_matrix("1,,2"), Err(LoadError::TokenParseError)));
}

#[test]
fn loading_twice_gives_element_wise_equal_matrices() {
    let text = " 1.5,2\n-3,4e0 ";
    let a = load_text(text).unwrap();
    let b = load_text(text).unwrap();
    assert_eq!(a.num_rows(), b.num_rows());
    assert_eq!(a.num_cols(), b.num_cols());
    for i in 0..a.num_rows() {
        for j in 0..a.num_cols() {
            assert_eq!(a.token(i, j), b.token(i, j));
            assert_eq!(
                a.token(i, j).parse::<f64>().unwrap(),
                b.token(i, j).parse::<f64>().unwrap()
            );
        }
    }
}

#[test]
fn error_messages_are_stable() {
    assert_eq!(LoadError::IoError.message(), "could not read the file");
    assert_eq!(LoadError::EmptyInput.message(), "file was empty");
    assert_eq!(
        LoadError::TokenParseError.message(),
        "could not parse token into a number"
    );
    assert_eq!(
        LoadError::RaggedMatrix.message(),
        "cannot create array with variable length columns"
    );
}

#[test]
fn parse_row_keeps_token_order() {
    let row = parse_row("1,2,3").unwrap();
    assert_eq!(row, vec!["1".to_string(), "2".to_string(), "3".to_string()]);
}
