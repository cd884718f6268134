use dns_rs::error::DecodeError;
use dns_rs::field::{Class, QType};
use dns_rs::resource_records::ResourceRecord;

#[test]
fn test_record_to_bytes_exact() {
    let rr = ResourceRecord::new(
        "example.com".to_string(),
        QType::A,
        Class::IN,
        60,
        4,
        vec![8, 8, 8, 8],
    );
    let expected = vec![
        7, 101, 120, 97, 109, 112, 108, 101, // "example" label
        3, 99, 111, 109, // "com" label
        0,   // null terminator
        0, 1, // qtype A (1)
        0, 1, // class IN (1)
        0, 0, 0, 60, // ttl
        0, 4, // rdlength
        8, 8, 8, 8, // rdata
    ];
    assert_eq!(rr.to_bytes(), expected);
}

#[test]
fn test_record_rdlength_recomputed_on_encode() {
    // A stale rdlength field is ignored: the length on the wire comes
    // from the data itself.
    let rr = ResourceRecord::new("a".to_string(), QType::A, Class::IN, 1, 999, vec![1, 2]);
    let wire = rr.to_bytes();
    // name "a" encodes to [1, 97, 0]; rdlength sits 8 bytes further on.
    assert_eq!(wire[3 + 8], 0);
    assert_eq!(wire[3 + 9], 2);
    let (decoded, _) = ResourceRecord::from_bytes(&wire, 0).unwrap();
    assert_eq!(decoded.rdlength, 2);
    assert_eq!(decoded.rdata, vec![1, 2]);
}

#[test]
fn test_record_round_trip() {
    let rr = ResourceRecord::new(
        "mail.example.com".to_string(),
        QType::MX,
        Class::IN,
        3600,
        5,
        vec![0, 10, 1, 2, 3],
    );
    let wire = rr.to_bytes();
    let (decoded, next) = ResourceRecord::from_bytes(&wire, 0).unwrap();
    assert_eq!(decoded.name, "mail.example.com");
    assert_eq!(decoded.qtype, QType::MX);
    assert_eq!(decoded.class, Class::IN);
    assert_eq!(decoded.ttl, 3600);
    assert_eq!(decoded.rdlength, 5);
    assert_eq!(decoded.rdata, vec![0, 10, 1, 2, 3]);
    assert_eq!(next, wire.len());
}

#[test]
fn test_record_truncated() {
    // The ttl field is cut short.
    let bytes = vec![1, 97, 0, 0, 1, 0, 1, 0, 0];
    assert_eq!(ResourceRecord::from_bytes(&bytes, 0).unwrap_err(), DecodeError::TruncatedInput);
    // The rdata is shorter than rdlength claims.
    let bytes = vec![1, 97, 0, 0, 1, 0, 1, 0, 0, 0, 60, 0, 4, 8, 8];
    assert_eq!(ResourceRecord::from_bytes(&bytes, 0).unwrap_err(), DecodeError::TruncatedInput);
}

#[test]
fn test_record_unknown_type_rejected() {
    let bytes = vec![1, 97, 0, 0, 77, 0, 1, 0, 0, 0, 60, 0, 0];
    assert_eq!(ResourceRecord::from_bytes(&bytes, 0).unwrap_err(), DecodeError::UnknownField);
}

#[test]
fn test_record_empty_name() {
    // A record with the empty (root) name: zero labels.
    let rr = ResourceRecord::new(String::new(), QType::TXT, Class::IN, 0, 0, vec![]);
    let wire = rr.to_bytes();
    assert_eq!(wire[0], 0);
    let (decoded, next) = ResourceRecord::from_bytes(&wire, 0).unwrap();
    assert_eq!(decoded.name, "");
    assert_eq!(decoded.rdata, Vec::<u8>::new());
    assert_eq!(next, wire.len());
}
