use dbtools::classify::{blank, classify, is_date, TypeTag};
use regex::Regex;

#[test]
fn date_literal_is_timestamp_not_number() {
    assert_eq!(classify("2016-01-01"), TypeTag::Timestamp);
}

#[test]
fn identifier_literal_comes_first() {
    assert_eq!(classify("ObjectId(abc123)"), TypeTag::ObjectIdRef);
    assert_eq!(classify("ObjectId(2016-01-01)"), TypeTag::ObjectIdRef);
    assert_eq!(classify("ObjectId()"), TypeTag::ObjectIdRef);
}

#[test]
fn identifier_literal_needs_both_ends() {
    assert_eq!(classify("ObjectId(abc123"), TypeTag::Text);
    assert_eq!(classify("ObjectId"), TypeTag::Text);
    assert_eq!(classify("xObjectId(abc)"), TypeTag::Text);
    assert_eq!(classify("objectid(abc)"), TypeTag::Text);
}

#[test]
fn date_with_trailing_text_is_still_a_timestamp() {
    assert_eq!(classify("2016-01-01 notes"), TypeTag::Timestamp);
    assert_eq!(classify("2016-01-01T10:20:30.000Z"), TypeTag::Timestamp);
}

#[test]
fn leading_digit_makes_a_number() {
    assert_eq!(classify("42"), TypeTag::Number);
    assert_eq!(classify("42xyz"), TypeTag::Number);
    assert_eq!(classify("3.14"), TypeTag::Number);
    assert_eq!(classify("2016-01-0x"), TypeTag::Number);
    assert_eq!(classify("7true"), TypeTag::Number);
}

#[test]
fn a_sign_or_a_point_in_front_is_text() {
    assert_eq!(classify("-5"), TypeTag::Text);
    assert_eq!(classify(".5"), TypeTag::Text);
    assert_eq!(classify(" 5"), TypeTag::Text);
}

#[test]
fn truth_values_in_any_case() {
    assert_eq!(classify("true"), TypeTag::Boolean);
    assert_eq!(classify("TRUE"), TypeTag::Boolean);
    assert_eq!(classify("False"), TypeTag::Boolean);
    assert_eq!(classify("fAlSe"), TypeTag::Boolean);
}

#[test]
fn a_truth_value_is_the_whole_field() {
    assert_eq!(classify("truely"), TypeTag::Text);
    assert_eq!(classify("untrue"), TypeTag::Text);
    assert_eq!(classify("true "), TypeTag::Text);
}

#[test]
fn everything_else_is_text() {
    assert_eq!(classify("Alice"), TypeTag::Text);
    assert_eq!(classify(""), TypeTag::Text);
    assert_eq!(classify("   "), TypeTag::Text);
    assert_eq!(classify("?!"), TypeTag::Text);
}

#[test]
fn blank_is_text_without_a_word_character() {
    assert!(blank(""));
    assert!(blank("   "));
    assert!(blank("?!"));
    assert!(!blank("a"));
    assert!(!blank(" _ "));
    assert!(!blank("42"));
    assert!(!blank("true"));
}

#[test]
fn letters_beyond_ascii_are_word_characters() {
    assert!(!blank("日本語"));
    assert!(!blank("é"));
    assert!(!blank("\u{203f}"));
    assert!(blank("\u{b2}"));
    assert!(blank("€"));
    assert!(blank("—"));
}

#[test]
fn is_date_looks_at_the_beginning_only() {
    assert!(is_date("2016-01-01"));
    assert!(is_date("2016-01-01T00:00:00"));
    assert!(!is_date("on 2016-01-01"));
    assert!(!is_date("2016-1-1"));
    assert!(!is_date("2016/01/01"));
    assert!(!is_date(""));
}

#[test]
fn classifier_agrees_with_the_patterns() {
    let oid = Regex::new(r"^ObjectId\(.*\)$").unwrap();
    let date = Regex::new(r"^[0-9]{4}-[0-9]{2}-[0-9]{2}").unwrap();
    let number = Regex::new(r"^[0-9]+").unwrap();
    let truth = Regex::new(r"^(?i:true|false)$").unwrap();
    let samples = [
        "", " ", "a", "1", "12ab", "2016-01-01", "2016-01-01x", "2016-01-0", "ObjectId(x)",
        "ObjectId(", "ObjectId()", "TRUE", "tRuE", "false", "falsey", "0", "00-11", "9999-99-99",
        "x2016-01-01", "ObjectId(1)2", "true)", "NULL", "null", "-1", "1e5", "1.5.6", "日本語",
    ];
    for s in samples {
        let expected = if oid.is_match(s) {
            TypeTag::ObjectIdRef
        } else if date.is_match(s) {
            TypeTag::Timestamp
        } else if number.is_match(s) {
            TypeTag::Number
        } else if truth.is_match(s) {
            TypeTag::Boolean
        } else {
            TypeTag::Text
        };
        assert_eq!(classify(s), expected, "{:?}", s);
    }
}

#[test]
fn blank_agrees_with_the_word_pattern_on_ascii() {
    let word = Regex::new(r"\w").unwrap();
    for code in 0u8..128 {
        let s = (code as char).to_string();
        let tag = classify(&s);
        assert_eq!(blank(&s), tag == TypeTag::Text && !word.is_match(&s), "{:?}", s);
    }
}

#[test]
fn beyond_ascii_the_word_class_is_that_of_the_patterns() {
    let word = Regex::new(r"\w").unwrap();
    for c in ['\u{b2}', '\u{203f}', 'é', '\u{301}', '\u{a0}', '€', '日', '٣', 'Ⅷ', '\u{200d}', '—'] {
        let s = c.to_string();
        assert_eq!(blank(&s), !word.is_match(&s), "{:?}", c);
    }
}
