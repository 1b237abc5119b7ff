use rotation_text::errors::ParseError;
use rotation_text::format::TextFormat;
use rotation_text::matrix::parse_matrix;

/// Parse a matrix input and convert its token rows to binary floats.
fn detect_matrix(input: &str) -> (TextFormat, Vec<Vec<f64>>) {
    let (fmt, rows) = TextFormat::detect_and_parse_matrix(input).unwrap();
    let nums = rows
        .iter()
        .map(|row| row.iter().map(|t| t.parse::<f64>().unwrap()).collect())
        .collect();
    (fmt, nums)
}

#[test]
fn matrix_nested_square_brackets() {
    let (fmt, rows) = detect_matrix("[[1, 2, 3], [4, 5, 6], [7, 8, 9]]");
    assert_eq!(fmt.open_matrix, "[");
    assert_eq!(fmt.close_matrix, "]");
    assert_eq!(fmt.open_vector, "[");
    assert_eq!(fmt.close_vector, "]");
    assert_eq!(fmt.number_delimiter, ", ");
    assert_eq!(fmt.vector_delimiter, ", ");
    assert_eq!(rows.len(), 3);
    assert_eq!(rows[0], vec![1.0, 2.0, 3.0]);
    assert_eq!(rows[2], vec![7.0, 8.0, 9.0]);
}

#[test]
fn matrix_nested_curly_braces() {
    let (fmt, rows) = detect_matrix("{{1, 2}, {3, 4}}");
    assert_eq!(fmt.open_matrix, "{");
    assert_eq!(fmt.close_matrix, "}");
    assert_eq!(fmt.open_vector, "{");
    assert_eq!(fmt.close_vector, "}");
    assert_eq!(fmt.vector_delimiter, ", ");
    assert_eq!(rows, vec![vec![1.0, 2.0], vec![3.0, 4.0]]);
}

#[test]
fn matrix_matlab_semicolons() {
    let (fmt, rows) = detect_matrix("[1 0 0; 0 1 0; 0 0 1]");
    assert_eq!(fmt.open_matrix, "[");
    assert_eq!(fmt.close_matrix, "]");
    assert_eq!(fmt.open_vector, "");
    assert_eq!(fmt.close_vector, "");
    assert_eq!(fmt.vector_delimiter, "; ");
    assert_eq!(rows.len(), 3);
    assert_eq!(rows[0], vec![1.0, 0.0, 0.0]);
}

#[test]
fn matrix_numpy_wrapper() {
    let (fmt, rows) = detect_matrix("np.array([[1, 0], [0, 1]])");
    assert_eq!(fmt.open_matrix, "[");
    assert_eq!(fmt.open_vector, "[");
    assert_eq!(fmt.vector_delimiter, ", ");
    assert_eq!(rows, vec![vec![1.0, 0.0], vec![0.0, 1.0]]);
}

#[test]
fn matrix_tuple_of_tuples() {
    let (fmt, rows) = detect_matrix("((1.0, 2.0), (3.0, 4.0))");
    assert_eq!(fmt.open_matrix, "(");
    assert_eq!(fmt.close_matrix, ")");
    assert_eq!(fmt.open_vector, "(");
    assert_eq!(fmt.close_vector, ")");
    assert_eq!(fmt.vector_delimiter, ", ");
    assert_eq!(rows, vec![vec![1.0, 2.0], vec![3.0, 4.0]]);
}

#[test]
fn matrix_empty_is_err() {
    assert!(TextFormat::detect_and_parse_matrix("").is_err());
    assert!(TextFormat::detect_and_parse_matrix("[]").is_err());
}

#[test]
fn matrix_nested_uneven_whitespace() {
    let (_, rows) = detect_matrix("[ [1,  2, 3] , [ 4,5, 6 ],[7, 8,  9] ]");
    assert_eq!(rows.len(), 3);
    assert_eq!(rows[0], vec![1.0, 2.0, 3.0]);
    assert_eq!(rows[1], vec![4.0, 5.0, 6.0]);
    assert_eq!(rows[2], vec![7.0, 8.0, 9.0]);
}

#[test]
fn matrix_matlab_uneven_spaces() {
    let (_, rows) = detect_matrix("[1  0  0 ;  0 1  0;  0  0  1]");
    assert_eq!(rows.len(), 3);
    assert_eq!(rows[0], vec![1.0, 0.0, 0.0]);
    assert_eq!(rows[1], vec![0.0, 1.0, 0.0]);
    assert_eq!(rows[2], vec![0.0, 0.0, 1.0]);
}

#[test]
fn matrix_numpy_inner_whitespace() {
    let (_, rows) = detect_matrix("np.array([ [ 1,  0],  [0, 1 ] ])");
    assert_eq!(rows, vec![vec![1.0, 0.0], vec![0.0, 1.0]]);
}

#[test]
fn matrix_tuple_of_tuples_uneven_whitespace() {
    let (_, rows) = detect_matrix("( ( 1.0 , 2.0) ,( 3.0,  4.0 ) )");
    assert_eq!(rows, vec![vec![1.0, 2.0], vec![3.0, 4.0]]);
}

#[test]
fn matrix_multiline_python_style() {
    let input = "[\n  [1, 2, 3],\n  [4, 5, 6],\n  [7, 8, 9]\n]";
    let (_, rows) = detect_matrix(input);
    assert_eq!(rows.len(), 3);
    assert_eq!(rows[0], vec![1.0, 2.0, 3.0]);
    assert_eq!(rows[1], vec![4.0, 5.0, 6.0]);
    assert_eq!(rows[2], vec![7.0, 8.0, 9.0]);
}

#[test]
fn matrix_matlab_multiline() {
    let input = "[1 0 0;\n 0 1 0;\n 0 0 1]";
    let (_, rows) = detect_matrix(input);
    assert_eq!(rows.len(), 3);
    assert_eq!(rows[0], vec![1.0, 0.0, 0.0]);
    assert_eq!(rows[1], vec![0.0, 1.0, 0.0]);
    assert_eq!(rows[2], vec![0.0, 0.0, 1.0]);
}

#[test]
fn malformed_matrix_unclosed_outer() {
    let err = TextFormat::detect_and_parse_matrix("[[1, 2], [3, 4]").unwrap_err();
    assert!(err.message().contains("Unclosed"), "expected unclosed error, got: {}", err.message());
}

#[test]
fn malformed_matrix_mismatched_inner() {
    let err = TextFormat::detect_and_parse_matrix("[[1, 2], [3, 4}]").unwrap_err();
    assert!(err.message().contains("Mismatched"), "expected mismatch error, got: {}", err.message());
}

#[test]
fn malformed_matrix_interleaved() {
    let err = TextFormat::detect_and_parse_matrix("[(1, 2], (3, 4))").unwrap_err();
    assert!(err.message().contains("Mismatched"), "expected mismatch error, got: {}", err.message());
}

#[test]
fn malformed_matrix_extra_open() {
    let err = TextFormat::detect_and_parse_matrix("[[[1, 2], [3, 4]]").unwrap_err();
    assert!(err.message().contains("Unclosed"), "expected unclosed error, got: {}", err.message());
}

#[test]
fn malformed_matrix_mixed_row_bracket_types() {
    let err = TextFormat::detect_and_parse_matrix("[[1, 2], (3, 4)]").unwrap_err();
    assert!(
        err.message().contains("Inconsistent"),
        "expected inconsistent bracket error, got: {}",
        err.message()
    );
}

#[test]
fn parse_matrix_identity_nested() {
    let (rows, _) = parse_matrix("[[1,0,0],[0,1,0],[0,0,1]]", 3, 3).unwrap();
    let expected = vec![
        vec!["1", "0", "0"],
        vec!["0", "1", "0"],
        vec!["0", "0", "1"],
    ];
    assert_eq!(rows, expected);
}

#[test]
fn parse_matrix_identity_matlab() {
    let (rows, _) = parse_matrix("1 0 0; 0 1 0; 0 0 1", 3, 3).unwrap();
    for i in 0..3 {
        for j in 0..3 {
            let v: f64 = rows[i][j].parse().unwrap();
            let expected = if i == j { 1.0 } else { 0.0 };
            assert_eq!(v, expected);
        }
    }
}

#[test]
fn parse_matrix_flat_fallback_reshapes() {
    let (rows, _) = parse_matrix("1 0 0 0 1 0 0 0 1", 3, 3).unwrap();
    assert_eq!(rows.len(), 3);
    for i in 0..3 {
        assert_eq!(rows[i].len(), 3);
        for j in 0..3 {
            let v: f64 = rows[i][j].parse().unwrap();
            let expected = if i == j { 1.0 } else { 0.0 };
            assert_eq!(v, expected);
        }
    }
}

#[test]
fn parse_matrix_flat_wrong_total_is_err() {
    let err = parse_matrix("1 2 3 4 5", 2, 3).unwrap_err();
    assert!(matches!(err, ParseError::WrongCount { expected: 6, actual: 5 }));
}

#[test]
fn parse_matrix_wrong_row_count_is_err() {
    let err = parse_matrix("[[1, 2], [3, 4]]", 3, 2).unwrap_err();
    assert!(matches!(err, ParseError::WrongCount { expected: 3, actual: 2 }));
}

#[test]
fn parse_matrix_wrong_column_count_is_err() {
    let err = parse_matrix("[[1, 2], [3, 4, 5]]", 2, 2).unwrap_err();
    assert!(matches!(
        err,
        ParseError::WrongColumnCount { row: 1, expected: 2, actual: 3 }
    ));
}

#[test]
fn parse_matrix_flat_inside_wrapper() {
    let (rows, fmt) = parse_matrix("np.array([1, 0, 0, 1])", 2, 2).unwrap();
    assert_eq!(fmt.open_matrix, "[");
    assert_eq!(fmt.prefix, "np.array(");
    assert_eq!(rows, vec![vec!["1", "0"], vec!["0", "1"]]);
}

#[test]
fn matrix_newline_rows() {
    let (fmt, rows) = detect_matrix("1 2 3\n4 5 6");
    assert_eq!(fmt.vector_delimiter, "\n");
    assert_eq!(rows, vec![vec![1.0, 2.0, 3.0], vec![4.0, 5.0, 6.0]]);
}
