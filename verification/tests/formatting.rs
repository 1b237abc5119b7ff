use rotation_text::format::TextFormat;

fn detect(input: &str) -> (TextFormat, Vec<f64>) {
    let (fmt, toks) = TextFormat::detect_and_parse(input).unwrap();
    let nums = toks.iter().map(|t| t.parse::<f64>().unwrap()).collect();
    (fmt, nums)
}

fn detect_matrix(input: &str) -> (TextFormat, Vec<Vec<f64>>) {
    let (fmt, rows) = TextFormat::detect_and_parse_matrix(input).unwrap();
    let nums = rows
        .iter()
        .map(|row| row.iter().map(|t| t.parse::<f64>().unwrap()).collect())
        .collect();
    (fmt, nums)
}

fn to_tokens(strs: &[&str]) -> Vec<String> {
    strs.iter().map(|s| s.to_string()).collect()
}

#[test]
fn round_trip_vector() {
    let input = "(0.1, 0.2, 0.3, 0.4)";
    let (fmt, toks) = TextFormat::detect_and_parse(input).unwrap();
    let formatted = fmt.format_vector(&toks);
    let (_, toks2) = TextFormat::detect_and_parse(&formatted).unwrap();
    let nums: Vec<f64> = toks.iter().map(|t| t.parse().unwrap()).collect();
    let nums2: Vec<f64> = toks2.iter().map(|t| t.parse().unwrap()).collect();
    for (a, b) in nums.iter().zip(nums2.iter()) {
        assert!((a - b).abs() < 1e-6, "round-trip mismatch: {} vs {}", a, b);
    }
}

#[test]
fn round_trip_matrix() {
    let input = "[[1, 0, 0], [0, 1, 0], [0, 0, 1]]";
    let (fmt, rows) = TextFormat::detect_and_parse_matrix(input).unwrap();
    let formatted = fmt.format_matrix(&rows);
    let (_, rows2) = TextFormat::detect_and_parse_matrix(&formatted).unwrap();
    assert_eq!(rows.len(), rows2.len());
    for (r1, r2) in rows.iter().zip(rows2.iter()) {
        for (a, b) in r1.iter().zip(r2.iter()) {
            let x: f64 = a.parse().unwrap();
            let y: f64 = b.parse().unwrap();
            assert!((x - y).abs() < 1e-6);
        }
    }
}

#[test]
fn round_trip_all_vector_notations() {
    let inputs = [
        "[1.0, 2.0, 3.0, 4.0]",
        "(1.0, 2.0, 3.0, 4.0)",
        "{1,2,3,4}",
        "1.0 2.0 3.0 4.0",
        "1.0\t2.0\t3.0\t4.0",
        "[1.0; 2.0; 3.0; 4.0]",
        "np.array([1.0, 2.0, 3.0, 4.0])",
        "vec![1.0, 2.0, 3.0, 4.0]",
    ];
    for input in inputs.iter() {
        let (fmt, toks) = TextFormat::detect_and_parse(input).unwrap();
        let formatted = fmt.format_vector(&toks);
        let (_, toks2) = TextFormat::detect_and_parse(&formatted).unwrap();
        let nums: Vec<f64> = toks.iter().map(|t| t.parse().unwrap()).collect();
        let nums2: Vec<f64> = toks2.iter().map(|t| t.parse().unwrap()).collect();
        assert_eq!(nums, nums2, "round trip failed for {}", input);
    }
}

#[test]
fn format_vector_exact_text() {
    let fmt = TextFormat::default();
    let s = fmt.format_vector(&to_tokens(&["1.0", "2.0", "3.0"]));
    assert_eq!(s, "[1.0, 2.0, 3.0]");
}

#[test]
fn format_vector_reattaches_wrapper() {
    let (fmt, toks) = TextFormat::detect_and_parse("np.array([0.0, 0.0, 0.0, 1.0])").unwrap();
    assert_eq!(fmt.prefix, "np.array(");
    assert_eq!(fmt.suffix, ")");
    let s = fmt.format_vector(&toks);
    assert_eq!(s, "np.array([0.0, 0.0, 0.0, 1.0])");
}

#[test]
fn format_matrix_exact_text() {
    let fmt = TextFormat::default();
    let rows = vec![to_tokens(&["1.0", "2.0"]), to_tokens(&["3.0", "4.0"])];
    let s = fmt.format_matrix(&rows);
    assert_eq!(s, "[[1.0, 2.0], [3.0, 4.0]]");
}

#[test]
fn format_matrix_matlab_style() {
    let (fmt, rows) = detect_matrix("[1 0; 0 1]");
    assert_eq!(fmt.vector_delimiter, "; ");
    let toks: Vec<Vec<String>> = rows
        .iter()
        .map(|r| r.iter().map(|v| format!("{}", v)).collect())
        .collect();
    let s = fmt.format_matrix(&toks);
    assert_eq!(s, "[1 0; 0 1]");
}

#[test]
fn detected_format_preserves_exact_vector_text() {
    let inputs = ["[1.0, 2.0, 3.0]", "(1.5,2.5)", "{1;2;3}", "1.0 2.0"];
    for input in inputs.iter() {
        let (fmt, toks) = TextFormat::detect_and_parse(input).unwrap();
        assert_eq!(&fmt.format_vector(&toks), input, "text not reproduced for {}", input);
    }
}

#[test]
fn default_format_fields() {
    let fmt = TextFormat::default();
    assert_eq!(fmt.number_delimiter, ", ");
    assert_eq!(fmt.open_vector, "[");
    assert_eq!(fmt.close_vector, "]");
    assert_eq!(fmt.vector_delimiter, ", ");
    assert_eq!(fmt.open_matrix, "[");
    assert_eq!(fmt.close_matrix, "]");
    assert_eq!(fmt.prefix, "");
    assert_eq!(fmt.suffix, "");
}

#[test]
fn quaternion_format_example() {
    // The worked example: a quaternion pasted in square brackets keeps its
    // notation when re-emitted after editing one token.
    let (fmt, mut toks) = TextFormat::detect_and_parse("[0.0, 0.0, 0.0, 1.0]").unwrap();
    toks[2] = "0.707107".to_string();
    toks[3] = "0.707107".to_string();
    let s = fmt.format_vector(&toks);
    assert_eq!(s, "[0.0, 0.0, 0.707107, 0.707107]");
    let (_, nums) = detect(&s);
    assert!((nums[2] - 0.707107).abs() < 1e-9);
}
