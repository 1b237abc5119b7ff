use rotation_text::errors::ParseError;
use rotation_text::format::QuaternionOrder;
use rotation_text::format::TextFormat;
use rotation_text::normalize;
use rotation_text::quaternion;

#[test]
fn touch_order_moves_to_newest() {
    let mut order: Vec<usize> = vec![0, 1, 2, 3];
    normalize::touch_order(&mut order, 1);
    assert_eq!(order, vec![0, 2, 3, 1]);
}

#[test]
fn touch_order_newest_stays() {
    let mut order: Vec<usize> = vec![0, 1, 2];
    normalize::touch_order(&mut order, 2);
    assert_eq!(order, vec![0, 1, 2]);
}

#[test]
fn touch_order_oldest_to_newest() {
    let mut order: Vec<usize> = vec![2, 0, 1];
    normalize::touch_order(&mut order, 2);
    assert_eq!(order, vec![0, 1, 2]);
}

#[test]
fn touch_order_absent_index_unchanged() {
    let mut order: Vec<usize> = vec![0, 1, 2];
    normalize::touch_order(&mut order, 7);
    assert_eq!(order, vec![0, 1, 2]);
}

#[test]
fn touch_order_empty_unchanged() {
    let mut order: Vec<usize> = Vec::new();
    normalize::touch_order(&mut order, 0);
    assert_eq!(order, Vec::<usize>::new());
}

#[test]
fn touch_order_repeated_touches() {
    let mut order: Vec<usize> = vec![0, 1, 2, 3];
    normalize::touch_order(&mut order, 0);
    normalize::touch_order(&mut order, 1);
    normalize::touch_order(&mut order, 0);
    assert_eq!(order, vec![2, 3, 1, 0]);
}

#[test]
fn quaternion_touch_order_array() {
    let mut order: [usize; 4] = [3, 2, 1, 0];
    quaternion::touch_order(&mut order, 2);
    assert_eq!(order, [3, 1, 0, 2]);
}

#[test]
fn quaternion_touch_order_absent_unchanged() {
    let mut order: [usize; 4] = [0, 1, 2, 3];
    quaternion::touch_order(&mut order, 9);
    assert_eq!(order, [0, 1, 2, 3]);
}

#[test]
fn non_active_order_drops_active() {
    let order: Vec<usize> = vec![2, 0, 3, 1];
    let rest = normalize::non_active_order(&order, 3);
    assert_eq!(rest, vec![2, 0, 1]);
}

#[test]
fn non_active_order_keeps_recency() {
    let order: Vec<usize> = vec![1, 2, 0];
    let rest = normalize::non_active_order(&order, 0);
    assert_eq!(rest, vec![1, 2]);
}

#[test]
fn quaternion_component_indices() {
    assert_eq!(quaternion::X, 0);
    assert_eq!(quaternion::Y, 1);
    assert_eq!(quaternion::Z, 2);
    assert_eq!(quaternion::W, 3);
}

#[test]
fn quaternion_components_xyzw() {
    let toks: Vec<String> =
        ["0.1", "0.2", "0.3", "0.9"].iter().map(|s| s.to_string()).collect();
    let (w, x, y, z) = quaternion::quaternion_components(toks, QuaternionOrder::XYZW);
    assert_eq!((w.as_str(), x.as_str(), y.as_str(), z.as_str()), ("0.9", "0.1", "0.2", "0.3"));
}

#[test]
fn quaternion_components_wxyz() {
    let toks: Vec<String> =
        ["0.9", "0.1", "0.2", "0.3"].iter().map(|s| s.to_string()).collect();
    let (w, x, y, z) = quaternion::quaternion_components(toks, QuaternionOrder::WXYZ);
    assert_eq!((w.as_str(), x.as_str(), y.as_str(), z.as_str()), ("0.9", "0.1", "0.2", "0.3"));
}

#[test]
fn error_messages_name_the_offence() {
    assert!(ParseError::EmptyInput.message().contains("Empty"));
    assert!(ParseError::NoNumbersFound.message().contains("No numbers"));
    assert!(ParseError::MultipleVectorsFound.message().contains("Multiple"));
    assert!(ParseError::InconsistentRowBrackets.message().contains("Inconsistent"));
    assert!(ParseError::ZeroNormQuaternion.message().contains("Quaternion"));
    assert!(ParseError::ZeroNormAxis.message().contains("Axis"));
    assert!(
        ParseError::UnclosedBracket { open: '[', pos: 0 }.message().contains("Unclosed")
    );
    assert!(
        ParseError::UnexpectedClose { close: ']', pos: 0 }.message().contains("Unexpected")
    );
    assert!(
        ParseError::MismatchedClose { opened: '[', closed: ')', pos: 1 }
            .message()
            .contains("Mismatched")
    );
    assert!(ParseError::WrongCount { expected: 3, actual: 4 }.message().contains("Wrong"));
    assert!(
        ParseError::WrongColumnCount { row: 0, expected: 3, actual: 4 }
            .message()
            .contains("Wrong")
    );
    assert!(
        ParseError::NumberParseFailure { token: "x".to_string() }
            .message()
            .contains("Failed to parse")
    );
}

#[test]
fn bracket_pair_positions_reported() {
    let chars: Vec<char> = "a[b(c)d]e".chars().collect();
    let pairs = TextFormat::validate_brackets(&chars).unwrap();
    assert_eq!(pairs.len(), 2);
    assert_eq!((pairs[0].open_idx, pairs[0].close_idx, pairs[0].open), (3, 5, '('));
    assert_eq!((pairs[1].open_idx, pairs[1].close_idx, pairs[1].open), (1, 7, '['));
}
