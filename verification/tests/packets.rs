use dns_rs::error::DecodeError;
use dns_rs::field::{Class, QType};
use dns_rs::header::Header;
use dns_rs::packet::{Packet, FORMAT_ERROR, SERVER_FAILURE};
use dns_rs::question::Question;
use dns_rs::resource_records::ResourceRecord;

fn two_question_packet() -> Packet {
    let mut header = Header::default();
    header.id(0x1234).recursion_desired(true).question_count(2);
    Packet {
        header,
        questions: vec![
            Question::new("example.com".to_string(), QType::A, Class::IN),
            Question::new("example.net".to_string(), QType::NS, Class::IN),
        ],
        records: vec![],
    }
}

#[test]
fn test_packet_from_bytes_two_questions() {
    let bytes = two_question_packet().to_bytes();
    let packet = Packet::from_bytes(&bytes).unwrap();
    assert_eq!(packet.header.id, 0x1234);
    assert_eq!(packet.header.question_count, 2);
    assert_eq!(packet.questions.len(), 2);
    assert_eq!(packet.questions[0].name, "example.com");
    assert_eq!(packet.questions[0].qtype, QType::A);
    assert_eq!(packet.questions[1].name, "example.net");
    assert_eq!(packet.questions[1].qtype, QType::NS);
    assert_eq!(packet.records.len(), 0);
}

#[test]
fn test_packet_from_bytes_truncated() {
    let bytes = two_question_packet().to_bytes();
    // Cut the second question short.
    let cut = &bytes[..bytes.len() - 3];
    assert_eq!(Packet::from_bytes(cut).unwrap_err(), DecodeError::TruncatedInput);
}

#[test]
fn test_split_two_questions() {
    let packet = two_question_packet();
    let subs = packet.split();
    assert_eq!(subs.len(), 2);
    for (i, sub) in subs.iter().enumerate() {
        assert_eq!(sub.header.id, 0x1234);
        assert_eq!(sub.header.question_count, 1);
        assert_eq!(sub.header.answer_count, 0);
        assert_eq!(sub.header.authority_count, 0);
        assert_eq!(sub.header.additional_count, 0);
        assert_eq!(sub.questions.len(), 1);
        assert_eq!(sub.questions[0].name, packet.questions[i].name);
        assert_eq!(sub.records.len(), 0);
    }
}

#[test]
fn test_split_merge_round_trip() {
    let packet = two_question_packet();
    let merged = Packet::merge(packet.split());
    assert_eq!(merged.header.question_count, 2);
    assert_eq!(merged.questions.len(), 2);
    assert_eq!(merged.questions[0].name, "example.com");
    assert_eq!(merged.questions[0].qtype, QType::A);
    assert_eq!(merged.questions[1].name, "example.net");
    assert_eq!(merged.questions[1].qtype, QType::NS);
    assert_eq!(merged.records.len(), 0);
    assert_eq!(merged.header.id, 0x1234);
}

#[test]
fn test_merge_concatenates_records() {
    let mut h = Header::default();
    h.query_response(true).question_count(1).answer_count(1);
    let sub = |name: &str, addr: u8| Packet {
        header: h.build(),
        questions: vec![Question::new(name.to_string(), QType::A, Class::IN)],
        records: vec![ResourceRecord::new(
            name.to_string(),
            QType::A,
            Class::IN,
            60,
            4,
            vec![addr, addr, addr, addr],
        )],
    };
    let merged = Packet::merge(vec![sub("example.com", 1), sub("example.net", 2)]);
    assert_eq!(merged.header.question_count, 2);
    assert_eq!(merged.header.answer_count, 2);
    assert_eq!(merged.questions.len(), 2);
    assert_eq!(merged.records.len(), 2);
    assert_eq!(merged.records[0].name, "example.com");
    assert_eq!(merged.records[0].rdata, vec![1, 1, 1, 1]);
    assert_eq!(merged.records[1].name, "example.net");
    assert_eq!(merged.records[1].rdata, vec![2, 2, 2, 2]);
}

#[test]
fn test_response_encode_decode_round_trip() {
    let mut header = Header::default();
    header.id(7).query_response(true).question_count(1).answer_count(1);
    let packet = Packet {
        header,
        questions: vec![Question::new("example.com".to_string(), QType::A, Class::IN)],
        records: vec![ResourceRecord::new(
            "example.com".to_string(),
            QType::A,
            Class::IN,
            60,
            4,
            vec![8, 8, 8, 8],
        )],
    };
    let bytes = packet.to_bytes();
    let decoded = Packet::decode_response(&bytes).unwrap();
    assert_eq!(decoded.header, packet.header);
    assert_eq!(decoded.questions.len(), 1);
    assert_eq!(decoded.questions[0].name, "example.com");
    assert_eq!(decoded.records.len(), 1);
    assert_eq!(decoded.records[0].name, "example.com");
    assert_eq!(decoded.records[0].ttl, 60);
    assert_eq!(decoded.records[0].rdata, vec![8, 8, 8, 8]);
}

#[test]
fn test_format_error_response() {
    // Too short to even hold a header: everything but the flags zeroed.
    let reply = Packet::format_error_response(&[1, 2, 3]);
    let h = Header::from_bytes(&reply).unwrap();
    assert_eq!(h.id, 0);
    assert!(h.query_response);
    assert_eq!(h.response_code, FORMAT_ERROR);
    assert_eq!(h.question_count, 0);
    // A full header: id, opcode and the recursion flag are echoed.
    let mut inbound = Header::default();
    inbound.id(0xABCD).opcode(2).recursion_desired(true).question_count(5);
    let reply = Packet::format_error_response(&inbound.to_bytes());
    let h = Header::from_bytes(&reply).unwrap();
    assert_eq!(h.id, 0xABCD);
    assert_eq!(h.opcode, 2);
    assert!(h.recursion_desired);
    assert!(h.query_response);
    assert_eq!(h.response_code, FORMAT_ERROR);
    assert_eq!(h.question_count, 0);
    assert_eq!(h.answer_count, 0);
}

#[test]
fn test_server_failure_response() {
    let packet = two_question_packet();
    let subs = packet.split();
    let failed = Packet::server_failure(&subs[0]);
    assert!(failed.header.query_response);
    assert_eq!(failed.header.response_code, SERVER_FAILURE);
    assert_eq!(failed.header.question_count, 1);
    assert_eq!(failed.header.answer_count, 0);
    assert_eq!(failed.questions.len(), 1);
    assert_eq!(failed.questions[0].name, "example.com");
    assert_eq!(failed.records.len(), 0);
}

#[test]
fn test_clone_keeps_contents() {
    let mut packet = two_question_packet();
    packet.records.push(ResourceRecord::new(
        "example.com".to_string(),
        QType::A,
        Class::IN,
        60,
        4,
        vec![8, 8, 8, 8],
    ));
    packet.header.answer_count(1);
    let copy = packet.clone();
    assert_eq!(copy.header, packet.header);
    assert_eq!(copy.questions.len(), 2);
    assert_eq!(copy.questions[0].name, packet.questions[0].name);
    assert_eq!(copy.questions[1].qtype, packet.questions[1].qtype);
    assert_eq!(copy.records.len(), 1);
    assert_eq!(copy.records[0].rdata, packet.records[0].rdata);
}

#[test]
fn test_default_header_is_zeroed() {
    let h = Header::default();
    assert_eq!(h.id, 0);
    assert!(!h.query_response);
    assert_eq!(h.opcode, 0);
    assert_eq!(h.question_count, 0);
    assert_eq!(h.answer_count, 0);
    assert_eq!(h.authority_count, 0);
    assert_eq!(h.additional_count, 0);
    assert_eq!(h.response_code, 0);
}

#[test]
fn test_end_to_end_proxy_flow() {
    // Inbound query: id 0x1234, one question ("example.com", A, IN).
    let mut qh = Header::default();
    qh.id(0x1234).question_count(1);
    let query = Packet {
        header: qh,
        questions: vec![Question::new("example.com".to_string(), QType::A, Class::IN)],
        records: vec![],
    };
    let query_bytes = query.to_bytes();

    // The proxy decodes and splits the query.
    let inbound = Packet::from_bytes(&query_bytes).unwrap();
    assert_eq!(inbound.header.id, 0x1234);
    assert!(!inbound.header.query_response);
    let subs = inbound.split();
    assert_eq!(subs.len(), 1);
    let forward_bytes = subs[0].to_bytes();

    // Stubbed upstream: answer the forwarded question with one A
    // record (rdata 8.8.8.8, ttl 60).
    let upstream_query = Packet::from_bytes(&forward_bytes).unwrap();
    let mut rh = upstream_query.header;
    rh.query_response(true).answer_count(1);
    let reply = Packet {
        header: rh.build(),
        questions: upstream_query.questions,
        records: vec![ResourceRecord::new(
            "example.com".to_string(),
            QType::A,
            Class::IN,
            60,
            4,
            vec![8, 8, 8, 8],
        )],
    };
    let reply_bytes = reply.to_bytes();

    // The proxy decodes the sub-response, merges, and re-encodes.
    let sub_response = Packet::decode_response(&reply_bytes).unwrap();
    let merged = Packet::merge(vec![sub_response]);
    let response_bytes = merged.to_bytes();

    // The final response decodes back to what the client should see.
    let response = Packet::decode_response(&response_bytes).unwrap();
    assert_eq!(response.header.id, 0x1234);
    assert!(response.header.query_response);
    assert_eq!(response.header.question_count, 1);
    assert_eq!(response.header.answer_count, 1);
    assert_eq!(response.questions.len(), 1);
    assert_eq!(response.questions[0].name, "example.com");
    assert_eq!(response.questions[0].qtype, QType::A);
    assert_eq!(response.questions[0].class, Class::IN);
    assert_eq!(response.records.len(), 1);
    assert_eq!(response.records[0].name, "example.com");
    assert_eq!(response.records[0].qtype, QType::A);
    assert_eq!(response.records[0].class, Class::IN);
    assert_eq!(response.records[0].ttl, 60);
    assert_eq!(response.records[0].rdlength, 4);
    assert_eq!(response.records[0].rdata, vec![8, 8, 8, 8]);
}
