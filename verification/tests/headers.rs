use dns_rs::error::DecodeError;
use dns_rs::header::Header;

fn sample_header() -> Header {
    let mut h = Header::default();
    h.id(0x1234)
        .query_response(true)
        .opcode(4)
        .authoritative_answer(true)
        .truncated_msg(false)
        .recursion_desired(true)
        .recursion_available(true)
        .reserved(0)
        .response_code(3)
        .question_count(2)
        .answer_count(1)
        .authority_count(0)
        .additional_count(7);
    h
}

#[test]
fn test_header_encode_exact_bytes() {
    let mut h = Header::default();
    h.id(0x1234).recursion_desired(true).question_count(1);
    assert_eq!(h.to_bytes(), [0x12, 0x34, 0x01, 0x00, 0, 1, 0, 0, 0, 0, 0, 0]);
}

#[test]
fn test_header_round_trip() {
    let h = sample_header();
    let decoded = Header::from_bytes(&h.to_bytes()).unwrap();
    assert_eq!(decoded, h);
}

#[test]
fn test_truncated_header_rejected() {
    assert_eq!(Header::from_bytes(&[0u8; 11]), Err(DecodeError::TruncatedInput));
    assert_eq!(Header::from_bytes(&[]), Err(DecodeError::TruncatedInput));
}

#[test]
fn test_header_decode_fields() {
    let bytes = [0x90, 0xBD, 0x81, 0x83, 0, 1, 0, 2, 0, 0, 0, 3];
    let h = Header::from_bytes(&bytes).unwrap();
    assert_eq!(h.id, 0x90BD);
    assert!(h.query_response);
    assert_eq!(h.opcode, 0);
    assert!(!h.authoritative_answer);
    assert!(!h.truncated_msg);
    assert!(h.recursion_desired);
    assert!(h.recursion_available);
    assert_eq!(h.reserved, 0);
    assert_eq!(h.response_code, 3);
    assert_eq!(h.question_count, 1);
    assert_eq!(h.answer_count, 2);
    assert_eq!(h.authority_count, 0);
    assert_eq!(h.additional_count, 3);
}

#[test]
fn test_inc_counts() {
    let mut h = Header::default();
    h.inc_qcount();
    h.inc_qcount();
    h.inc_ancount();
    assert_eq!(h.question_count, 2);
    assert_eq!(h.answer_count, 1);
}

#[test]
fn test_build_copies() {
    let h = sample_header();
    assert_eq!(h.build(), h);
}
