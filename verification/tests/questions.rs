use dns_rs::error::DecodeError;
use dns_rs::field::{Class, QType};
use dns_rs::name::labels_from_bytes;
use dns_rs::question::Question;

#[test]
fn test_question_to_bytes() {
    let question = Question::new("example.com".to_string(), QType::A, Class::IN);
    let expected_bytes = vec![
        7, 101, 120, 97, 109, 112, 108, 101, // "example" label
        3, 99, 111, 109, // "com" label
        0,   // null terminator
        0, 1, // qtype A (1)
        0, 1, // class IN (1)
    ];
    assert_eq!(question.to_bytes(), expected_bytes);
}

#[test]
fn test_question_from_bytes() {
    let bytes = vec![
        144, 189, 1, 0, 0, 1, 0, 0, 0, 0, 0, 0, // header
        7, 101, 120, 97, 109, 112, 108, 101, // "example" label
        3, 99, 111, 109, // "com" label
        0,   // null terminator
        0, 1, // qtype A (1)
        0, 1, // class IN (1)
    ];
    let (question, _) = Question::from_bytes(&bytes, 12).unwrap();
    assert_eq!(question.name, "example.com");
    assert_eq!(question.qtype, QType::A);
    assert_eq!(question.class, Class::IN);
}

#[test]
fn test_compressed_question_from_bytes() {
    let bytes = vec![
        144, 189, 1, 0, 0, 1, 0, 0, 0, 0, 0, 0, // header
        2, 101, 110, // "en" label
        7, 101, 120, 97, 109, 112, 108, 101, // "example" label
        3, 99, 111, 109, // "com" label
        0,   // null terminator
        0, 1, // qtype A (1)
        0, 1, // class IN (1)
        2, 101, 115, // "es" label
        192, 15, // pointer to "example" label
        0,  // null terminator
        0, 1, // qtype A (1)
        0, 1, // class IN (1)
    ];
    let (label, cursor) = labels_from_bytes(&bytes, 12).unwrap();
    assert_eq!(label, "en.example.com");
    assert_eq!(cursor, 28);
    let (label, cursor) = labels_from_bytes(&bytes, 32).unwrap();
    assert_eq!(label, "es.example.com");
    assert_eq!(cursor, 37);
}

#[test]
fn test_question_round_trip() {
    let question = Question::new("a.bc.example".to_string(), QType::MX, Class::CH);
    let wire = question.to_bytes();
    let (decoded, next) = Question::from_bytes(&wire, 0).unwrap();
    assert_eq!(decoded.name, "a.bc.example");
    assert_eq!(decoded.qtype, QType::MX);
    assert_eq!(decoded.class, Class::CH);
    assert_eq!(next, wire.len());
}

#[test]
fn test_question_unknown_type_rejected() {
    // qtype 99 is outside the enumerated set.
    let bytes = vec![1, 97, 0, 0, 99, 0, 1];
    assert_eq!(Question::from_bytes(&bytes, 0).unwrap_err(), DecodeError::UnknownField);
    // class 9 is outside the enumerated set.
    let bytes = vec![1, 97, 0, 0, 1, 0, 9];
    assert_eq!(Question::from_bytes(&bytes, 0).unwrap_err(), DecodeError::UnknownField);
}

#[test]
fn test_question_truncated_after_name() {
    // Only 3 of the 4 type/class bytes follow the name.
    let bytes = vec![1, 97, 0, 0, 1, 0];
    assert_eq!(Question::from_bytes(&bytes, 0).unwrap_err(), DecodeError::TruncatedInput);
}
