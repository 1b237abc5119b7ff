use rotation_text::errors::ParseError;
use rotation_text::format::TextFormat;
use rotation_text::vector::parse_vector;

/// Parse a vector input and convert its tokens to binary floats.
fn detect(input: &str) -> (TextFormat, Vec<f64>) {
    let (fmt, toks) = TextFormat::detect_and_parse(input).unwrap();
    let nums = toks.iter().map(|t| t.parse::<f64>().unwrap()).collect();
    (fmt, nums)
}

#[test]
fn square_bracket_comma_space() {
    let (fmt, nums) = detect("[1.0, 2.0, 3.0, 4.0]");
    assert_eq!(fmt.open_vector, "[");
    assert_eq!(fmt.close_vector, "]");
    assert_eq!(fmt.number_delimiter, ", ");
    assert_eq!(nums, vec![1.0, 2.0, 3.0, 4.0]);
}

#[test]
fn paren_comma_space() {
    let (fmt, nums) = detect("(0.0, 0.0, 0.0, 1.0)");
    assert_eq!(fmt.open_vector, "(");
    assert_eq!(fmt.close_vector, ")");
    assert_eq!(fmt.number_delimiter, ", ");
    assert_eq!(nums, vec![0.0, 0.0, 0.0, 1.0]);
}

#[test]
fn curly_comma_no_space() {
    let (fmt, nums) = detect("{1,2,3,4}");
    assert_eq!(fmt.open_vector, "{");
    assert_eq!(fmt.close_vector, "}");
    assert_eq!(fmt.number_delimiter, ",");
    assert_eq!(nums, vec![1.0, 2.0, 3.0, 4.0]);
}

#[test]
fn bare_space_separated() {
    let (fmt, nums) = detect("1.0 2.0 3.0 4.0");
    assert_eq!(fmt.open_vector, "");
    assert_eq!(fmt.close_vector, "");
    assert_eq!(fmt.number_delimiter, " ");
    assert_eq!(nums, vec![1.0, 2.0, 3.0, 4.0]);
}

#[test]
fn bare_comma_separated() {
    let (fmt, nums) = detect("1.0, 2.0, 3.0");
    assert_eq!(fmt.open_vector, "");
    assert_eq!(fmt.close_vector, "");
    assert_eq!(fmt.number_delimiter, ", ");
    assert_eq!(nums, vec![1.0, 2.0, 3.0]);
}

#[test]
fn tab_separated() {
    let (fmt, nums) = detect("1.0\t2.0\t3.0");
    assert_eq!(fmt.number_delimiter, "\t");
    assert_eq!(nums, vec![1.0, 2.0, 3.0]);
}

#[test]
fn semicolon_separated_vector() {
    let (fmt, nums) = detect("[1.0; 2.0; 3.0; 4.0]");
    assert_eq!(fmt.open_vector, "[");
    assert_eq!(fmt.close_vector, "]");
    assert_eq!(fmt.number_delimiter, "; ");
    assert_eq!(nums, vec![1.0, 2.0, 3.0, 4.0]);
}

#[test]
fn numpy_wrapper_stripped() {
    let (fmt, nums) = detect("np.array([0.0, 0.0, 0.0, 1.0])");
    assert_eq!(fmt.open_vector, "[");
    assert_eq!(fmt.close_vector, "]");
    assert_eq!(fmt.number_delimiter, ", ");
    assert_eq!(nums, vec![0.0, 0.0, 0.0, 1.0]);
}

#[test]
fn rust_vec_macro_stripped() {
    let (fmt, nums) = detect("vec![1.0, 2.0, 3.0]");
    assert_eq!(fmt.open_vector, "[");
    assert_eq!(fmt.close_vector, "]");
    assert_eq!(nums, vec![1.0, 2.0, 3.0]);
}

#[test]
fn rust_f32_suffixes_parsed() {
    let (_, nums) = detect("[1.0f32, 2.5f64, 3.0]");
    assert_eq!(nums, vec![1.0, 2.5, 3.0]);
}

#[test]
fn rust_underscore_separators() {
    let (_, nums) = detect("[1_000.0, 2_000.0]");
    assert_eq!(nums, vec![1000.0, 2000.0]);
}

#[test]
fn negative_numbers() {
    let (_, nums) = detect("[-1.0, 2.0, -3.5]");
    assert_eq!(nums, vec![-1.0, 2.0, -3.5]);
}

#[test]
fn leading_trailing_whitespace() {
    let (fmt, nums) = detect("  [1.0, 2.0, 3.0]  ");
    assert_eq!(fmt.open_vector, "[");
    assert_eq!(nums, vec![1.0, 2.0, 3.0]);
}

#[test]
fn empty_input_is_err() {
    assert!(TextFormat::detect_and_parse("").is_err());
    assert!(TextFormat::detect_and_parse("   ").is_err());
}

#[test]
fn no_numbers_is_err() {
    assert!(TextFormat::detect_and_parse("[]").is_err());
}

#[test]
fn integers_parsed_as_floats() {
    let (_, nums) = detect("[1, 0, 0, 0]");
    assert_eq!(nums, vec![1.0, 0.0, 0.0, 0.0]);
}

#[test]
fn uneven_spaces_around_commas() {
    let (_, nums) = detect("[1.0,  2.0,   3.0,4.0]");
    assert_eq!(nums, vec![1.0, 2.0, 3.0, 4.0]);
}

#[test]
fn spaces_inside_brackets() {
    let (fmt, nums) = detect("[  1.0, 2.0, 3.0  ]");
    assert_eq!(fmt.open_vector, "[");
    assert_eq!(fmt.close_vector, "]");
    assert_eq!(nums, vec![1.0, 2.0, 3.0]);
}

#[test]
fn mixed_spacing_around_commas() {
    let (_, nums) = detect("[1.0 , 2.0,  3.0 ,  4.0]");
    assert_eq!(nums, vec![1.0, 2.0, 3.0, 4.0]);
}

#[test]
fn multiple_spaces_bare_numbers() {
    let (_, nums) = detect("1.0   2.0  3.0    4.0");
    assert_eq!(nums, vec![1.0, 2.0, 3.0, 4.0]);
}

#[test]
fn tabs_and_spaces_mixed() {
    let (_, nums) = detect("1.0\t 2.0 \t3.0");
    assert_eq!(nums, vec![1.0, 2.0, 3.0]);
}

#[test]
fn newlines_in_vector_input() {
    let (_, nums) = detect("[1.0,\n 2.0,\n 3.0]");
    assert_eq!(nums, vec![1.0, 2.0, 3.0]);
}

#[test]
fn parens_uneven_whitespace() {
    let (fmt, nums) = detect("( 0.0,  0.0, 0.0,  1.0 )");
    assert_eq!(fmt.open_vector, "(");
    assert_eq!(fmt.close_vector, ")");
    assert_eq!(nums, vec![0.0, 0.0, 0.0, 1.0]);
}

#[test]
fn curly_braces_uneven_whitespace() {
    let (fmt, nums) = detect("{  1, 2,  3 , 4  }");
    assert_eq!(fmt.open_vector, "{");
    assert_eq!(fmt.close_vector, "}");
    assert_eq!(nums, vec![1.0, 2.0, 3.0, 4.0]);
}

#[test]
fn numpy_wrapper_inner_whitespace() {
    let (_, nums) = detect("np.array([ 1.0,  2.0,   3.0 ])");
    assert_eq!(nums, vec![1.0, 2.0, 3.0]);
}

#[test]
fn numpy_wrapper_outer_whitespace() {
    let (_, nums) = detect("  np.array([1.0, 2.0, 3.0])  ");
    assert_eq!(nums, vec![1.0, 2.0, 3.0]);
}

#[test]
fn rust_vec_macro_inner_whitespace() {
    let (_, nums) = detect("vec![ 1.0,  2.0,   3.0 ]");
    assert_eq!(nums, vec![1.0, 2.0, 3.0]);
}

#[test]
fn semicolons_uneven_whitespace() {
    let (_, nums) = detect("[1.0 ;  2.0;3.0 ; 4.0]");
    assert_eq!(nums, vec![1.0, 2.0, 3.0, 4.0]);
}

#[test]
fn bare_commas_uneven_whitespace() {
    let (_, nums) = detect("1.0,  2.0,   3.0,4.0");
    assert_eq!(nums, vec![1.0, 2.0, 3.0, 4.0]);
}

#[test]
fn malformed_unclosed_square_bracket() {
    let err = TextFormat::detect_and_parse("[1.0, 2.0, 3.0").unwrap_err();
    assert!(err.message().contains("Unclosed"), "expected unclosed error, got: {}", err.message());
}

#[test]
fn malformed_unexpected_close_bracket() {
    let err = TextFormat::detect_and_parse("1.0, 2.0, 3.0]").unwrap_err();
    assert!(err.message().contains("Unexpected"), "expected unexpected error, got: {}", err.message());
}

#[test]
fn malformed_mismatched_brackets_square_paren() {
    let err = TextFormat::detect_and_parse("[1.0, 2.0, 3.0)").unwrap_err();
    assert!(err.message().contains("Mismatched"), "expected mismatch error, got: {}", err.message());
}

#[test]
fn malformed_mismatched_brackets_paren_curly() {
    let err = TextFormat::detect_and_parse("(1.0, 2.0, 3.0}").unwrap_err();
    assert!(err.message().contains("Mismatched"), "expected mismatch error, got: {}", err.message());
}

#[test]
fn malformed_interleaved_brackets() {
    let err = TextFormat::detect_and_parse("(1.0, [2.0), 3.0]").unwrap_err();
    assert!(err.message().contains("Mismatched"), "expected mismatch error, got: {}", err.message());
}

#[test]
fn malformed_unclosed_curly() {
    let err = TextFormat::detect_and_parse("{1.0, 2.0").unwrap_err();
    assert!(err.message().contains("Unclosed"), "expected unclosed error, got: {}", err.message());
}

#[test]
fn malformed_extra_open_paren() {
    let err = TextFormat::detect_and_parse("((1.0, 2.0, 3.0)").unwrap_err();
    assert!(err.message().contains("Unclosed"), "expected unclosed error, got: {}", err.message());
}

#[test]
fn malformed_extra_close_bracket() {
    let err = TextFormat::detect_and_parse("[1.0, 2.0]]").unwrap_err();
    assert!(err.message().contains("Unexpected"), "expected unexpected error, got: {}", err.message());
}

#[test]
fn malformed_nested_unclosed() {
    let err = TextFormat::detect_and_parse("[1.0, [2.0, 3.0]").unwrap_err();
    assert!(err.message().contains("Unclosed"), "expected unclosed error, got: {}", err.message());
}

#[test]
fn malformed_numpy_wrapper_bad_inner() {
    let err = TextFormat::detect_and_parse("np.array([1.0, 2.0, 3.0)").unwrap_err();
    assert!(
        err.message().contains("Mismatched") || err.message().contains("Unclosed"),
        "expected bracket error, got: {}",
        err.message()
    );
}

#[test]
fn malformed_quaternion_unclosed_bracket() {
    let err = parse_vector("[0.0, 0.0, 0.0, 1.0", 4).unwrap_err();
    assert!(err.message().contains("Unclosed"), "expected unclosed error, got: {}", err.message());
}

#[test]
fn malformed_quaternion_mismatched_bracket() {
    let err = parse_vector("[0.0, 0.0, 0.0, 1.0)", 4).unwrap_err();
    assert!(err.message().contains("Mismatched"), "expected mismatch error, got: {}", err.message());
}

#[test]
fn malformed_quaternion_interleaved() {
    let err = parse_vector("(0.0, [0.0), 0.0, 1.0]", 4).unwrap_err();
    assert!(err.message().contains("Mismatched"), "expected mismatch error, got: {}", err.message());
}

#[test]
fn malformed_axis_angle_unclosed_bracket() {
    let err = parse_vector("[0.1, 0.2, 0.3", 3).unwrap_err();
    assert!(err.message().contains("Unclosed"), "expected unclosed error, got: {}", err.message());
}

#[test]
fn malformed_axis_angle_mismatched_bracket() {
    let err = parse_vector("{0.1, 0.2, 0.3)", 3).unwrap_err();
    assert!(err.message().contains("Mismatched"), "expected mismatch error, got: {}", err.message());
}

#[test]
fn inconsistent_delimiters_comma_and_semicolon() {
    assert!(TextFormat::detect_and_parse("[1, 2; 3, 4]").is_err());
}

#[test]
fn inconsistent_delimiters_comma_and_space() {
    assert!(TextFormat::detect_and_parse("[1, 2 3, 4]").is_err());
}

#[test]
fn quaternion_wrong_count_is_err() {
    assert!(parse_vector("[1.0, 2.0, 3.0]", 4).is_err());
    assert!(parse_vector("[1.0, 2.0, 3.0, 4.0, 5.0]", 4).is_err());
}

#[test]
fn axis_angle_3d_wrong_count_is_err() {
    assert!(parse_vector("[1.0, 2.0]", 3).is_err());
    assert!(parse_vector("[1.0, 2.0, 3.0, 4.0]", 3).is_err());
}

#[test]
fn wrong_count_reports_expected_and_actual() {
    let err = parse_vector("[1.0, 2.0, 3.0, 4.0]", 3).unwrap_err();
    assert!(matches!(err, ParseError::WrongCount { expected: 3, actual: 4 }));
}

#[test]
fn multiple_vectors_found() {
    let err = TextFormat::detect_and_parse("[1, 2, 3] [4, 5, 6]").unwrap_err();
    assert!(matches!(err, ParseError::MultipleVectorsFound));
}

#[test]
fn mixed_delimiters_fail_via_number_error() {
    let err = parse_vector("[1, 2; 3, 4]", 4).unwrap_err();
    assert!(matches!(err, ParseError::NumberParseFailure { .. }));
}

#[test]
fn bad_token_is_reported() {
    let err = TextFormat::detect_and_parse("[1.0, abc, 3.0]").unwrap_err();
    match err {
        ParseError::NumberParseFailure { token } => assert_eq!(token, "abc"),
        other => panic!("expected number failure, got: {}", other.message()),
    }
}

#[test]
fn word_tokens_rejected() {
    assert!(TextFormat::detect_and_parse("inf nan").is_err());
    assert!(TextFormat::detect_and_parse("[1..2, 3]").is_err());
    assert!(TextFormat::detect_and_parse("[--1, 3]").is_err());
}

#[test]
fn exponent_and_dot_forms_accepted() {
    let (_, nums) = detect("[1e5, 1., .5, +1, -2.5e-3]");
    assert_eq!(nums, vec![1e5, 1.0, 0.5, 1.0, -2.5e-3]);
}

#[test]
fn newline_separated_vector() {
    let (fmt, nums) = detect("1.0\n2.0\n3.0");
    assert_eq!(fmt.number_delimiter, "\n");
    assert_eq!(nums, vec![1.0, 2.0, 3.0]);
}

#[test]
fn double_wrapped_payload_unwrapped() {
    let (fmt, nums) = detect("np.array([1.0, 2.0])");
    assert_eq!(fmt.prefix, "np.array(");
    assert_eq!(fmt.suffix, ")");
    assert_eq!(nums, vec![1.0, 2.0]);
}
