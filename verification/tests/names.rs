use dns_rs::error::DecodeError;
use dns_rs::name::{encode_name, labels_from_bytes};

#[test]
fn test_name_encode_exact() {
    assert_eq!(
        encode_name("example.com"),
        vec![7, 101, 120, 97, 109, 112, 108, 101, 3, 99, 111, 109, 0]
    );
    assert_eq!(encode_name(""), vec![0]);
}

#[test]
fn test_name_round_trip() {
    let wire = encode_name("en.example.com");
    let (name, next) = labels_from_bytes(&wire, 0).unwrap();
    assert_eq!(name, "en.example.com");
    assert_eq!(next, wire.len());

    let wire = encode_name("a.bc.def.ghij");
    let (name, next) = labels_from_bytes(&wire, 0).unwrap();
    assert_eq!(name, "a.bc.def.ghij");
    assert_eq!(next, wire.len());
}

#[test]
fn test_compressed_name_scenario() {
    // An earlier name "en.example.com" at offset 12; a later name made
    // of the label "es" and a pointer to the "example" label.
    let mut buf = vec![0u8; 12];
    buf.extend_from_slice(&[2, 101, 110]); // "en" at 12
    buf.extend_from_slice(&[7, 101, 120, 97, 109, 112, 108, 101]); // "example" at 15
    buf.extend_from_slice(&[3, 99, 111, 109, 0]); // "com", terminator
    let later = buf.len(); // 28
    buf.extend_from_slice(&[2, 101, 115]); // "es"
    let pointer_pos = buf.len(); // 31
    buf.extend_from_slice(&[0xC0, 0x0F]); // pointer to offset 15
    let (name, next) = labels_from_bytes(&buf, later).unwrap();
    assert_eq!(name, "es.example.com");
    // The cursor advances exactly 2 bytes past the pointer.
    assert_eq!(next, pointer_pos + 2);
}

#[test]
fn test_self_pointer_reports_loop() {
    // A pointer at offset 12 whose target is offset 12 itself.
    let mut buf = vec![0u8; 12];
    buf.extend_from_slice(&[0xC0, 12]);
    assert_eq!(labels_from_bytes(&buf, 12), Err(DecodeError::CompressionLoop));
}

#[test]
fn test_mutual_pointer_loop_rejected() {
    // Two pointers that target each other.
    let buf = vec![0xC0, 2, 0xC0, 0];
    assert_eq!(labels_from_bytes(&buf, 0), Err(DecodeError::CompressionLoop));
}

#[test]
fn test_pointer_chain_depth_capped() {
    // buf[0] is the empty name; pointer k (at offset 2k + 1) targets
    // the previous pointer, so decoding from pointer n chases n
    // redirections before reaching the name.
    let mut buf = vec![0u8];
    for k in 0..200usize {
        if k == 0 {
            buf.extend_from_slice(&[0xC0, 0]);
        } else {
            let target = 2 * (k - 1) + 1;
            buf.extend_from_slice(&[0xC0 | (target >> 8) as u8, (target & 0xFF) as u8]);
        }
    }
    // 128 redirections are within the guard.
    let start_128 = 2 * 127 + 1;
    let (name, next) = labels_from_bytes(&buf, start_128).unwrap();
    assert_eq!(name, "");
    assert_eq!(next, start_128 + 2);
    // 129 redirections exceed it.
    let start_129 = 2 * 128 + 1;
    assert_eq!(labels_from_bytes(&buf, start_129), Err(DecodeError::CompressionLoop));
}

#[test]
fn test_malformed_name_out_of_bounds() {
    // A label length that runs past the end of the buffer.
    assert_eq!(labels_from_bytes(&[5, 97, 98], 0), Err(DecodeError::MalformedName));
    // A pointer missing its second byte.
    assert_eq!(labels_from_bytes(&[0xC0], 0), Err(DecodeError::MalformedName));
    // A start position outside the buffer.
    assert_eq!(labels_from_bytes(&[], 0), Err(DecodeError::MalformedName));
    // A name that never terminates before the buffer ends.
    assert_eq!(labels_from_bytes(&[1, 97], 0), Err(DecodeError::MalformedName));
}
