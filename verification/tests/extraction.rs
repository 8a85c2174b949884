use episode_matcher::ocr::candidates_from_text;
use episode_matcher::ocr::extract_production_code_candidates;
use episode_matcher::ocr::normalize_text;
use episode_matcher::text::string_of;

fn chars(s: &str) -> Vec<char> {
    s.chars().collect()
}

#[test]
fn test_normalization_corrects_confusables() {
    // A letter O reads as zero, I as one, S as five, ? as X.
    let normalized = string_of(&normalize_text(&chars("O1ABX1O")));
    assert_eq!(normalized, "01ABX10");
    let normalized = string_of(&normalize_text(&chars("#3?22 IS")));
    assert_eq!(normalized, "#3X2215");
}

#[test]
fn test_normalization_strips_whitespace() {
    let normalized = string_of(&normalize_text(&chars(" 6AB\tX08\n")));
    assert_eq!(normalized, "6ABX08");
}

#[test]
fn test_normalization_is_idempotent() {
    let once = normalize_text(&chars("O1 ABX1O\u{a0}?S"));
    let twice = normalize_text(&once);
    assert_eq!(string_of(&once), string_of(&twice));
}

#[test]
fn test_candidate_matches_after_normalization() {
    // The literal letter O normalizes to zero and the result matches the
    // production-code shape.
    assert_eq!(candidates_from_text("O1ABX1O"), vec!["1ABX10".to_string()]);
}

#[test]
fn test_candidate_shapes() {
    // Letter-shaped codes, two or three trailing digits.
    assert_eq!(candidates_from_text("#3X22"), vec!["3X22".to_string()]);
    assert_eq!(candidates_from_text("6ABX08"), vec!["6ABX08".to_string()]);
    assert_eq!(candidates_from_text("1AYW011"), vec!["1AYW011".to_string()]);
    // A run of four letters fits no shape.
    assert_eq!(candidates_from_text("1ABCD12"), Vec::<String>::new());
    // The numeric shape: a digit, a digit zero to three, a digit, with an
    // optional leading one.
    assert_eq!(candidates_from_text("xx1079xx"), vec!["107".to_string()]);
    assert_eq!(candidates_from_text("x1209x"), vec!["1209".to_string()]);
    assert_eq!(candidates_from_text("939"), vec!["939".to_string()]);
    assert_eq!(candidates_from_text("x87x"), Vec::<String>::new());
}

#[test]
fn test_candidates_in_frame_order() {
    let frames = vec![
        "nothing here".to_string(),
        "code 3X22 shown".to_string(),
        "later 6ABX08".to_string(),
    ];
    assert_eq!(
        extract_production_code_candidates(&frames),
        vec!["3X22".to_string(), "6ABX08".to_string()]
    );
}

#[test]
fn test_multiple_candidates_in_one_frame() {
    assert_eq!(
        extract_production_code_candidates(&vec!["3X22 and 3X23".to_string()]),
        vec!["3X22".to_string(), "3X23".to_string()]
    );
    assert_eq!(
        extract_production_code_candidates(&vec!["no codes at all".to_string()]),
        Vec::<String>::new()
    );
}
