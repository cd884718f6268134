use dns_rs::error::DecodeError;
use dns_rs::field::{Class, QType};

#[test]
fn test_query_type_to_u16() {
    assert_eq!(QType::A.to_u16(), 1u16);
    assert_eq!(QType::NS.to_u16(), 2u16);
    assert_eq!(QType::CNAME.to_u16(), 5u16);
}

#[test]
fn test_query_type_from_u16() {
    assert_eq!(QType::from_u16(1).unwrap(), QType::A);
    assert_eq!(QType::from_u16(2).unwrap(), QType::NS);
    assert_eq!(QType::from_u16(5).unwrap(), QType::CNAME);
}

#[test]
fn test_class_to_u16() {
    assert_eq!(Class::IN.to_u16(), 1u16);
    assert_eq!(Class::CS.to_u16(), 2u16);
}

#[test]
fn test_class_from_u16() {
    assert_eq!(Class::from_u16(1).unwrap(), Class::IN);
    assert_eq!(Class::from_u16(2).unwrap(), Class::CS);
}

#[test]
fn test_unknown_field_values_rejected() {
    assert_eq!(QType::from_u16(0), Err(DecodeError::UnknownField));
    assert_eq!(QType::from_u16(17), Err(DecodeError::UnknownField));
    assert_eq!(QType::from_u16(0xFFFF), Err(DecodeError::UnknownField));
    assert_eq!(Class::from_u16(0), Err(DecodeError::UnknownField));
    assert_eq!(Class::from_u16(5), Err(DecodeError::UnknownField));
}

#[test]
fn test_every_field_value_round_trips() {
    for v in 1..=16u16 {
        assert_eq!(QType::from_u16(v).unwrap().to_u16(), v);
    }
    for v in 1..=4u16 {
        assert_eq!(Class::from_u16(v).unwrap().to_u16(), v);
    }
}
