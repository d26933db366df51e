use dns_resolver::{DnsError, Header, Packet, Question, Record};

fn example_header() -> Header {
    Header {
        id: 0xBEEF,
        flags: 0x8180,
        num_questions: 1,
        num_answers: 2,
        num_authorities: 3,
        num_additionals: 0xFFFF,
    }
}

#[test]
fn header_to_bytes_is_big_endian() {
    let bytes = example_header().to_bytes();
    assert_eq!(bytes, vec![0xBE, 0xEF, 0x81, 0x80, 0, 1, 0, 2, 0, 3, 0xFF, 0xFF]);
}

#[test]
fn header_round_trip() {
    let h = example_header();
    let back = Header::from_bytes(&h.to_bytes()).unwrap();
    assert_eq!(back, h);
}

#[test]
fn header_needs_twelve_bytes() {
    let bytes = example_header().to_bytes();
    for k in 0..12 {
        assert_eq!(Header::from_bytes(&bytes[..k]), Err(DnsError::MalformedMessage));
    }
}

#[test]
fn encode_name_writes_length_prefixed_labels() {
    let wire = Question::encode_name("example.com").unwrap();
    assert_eq!(
        wire,
        vec![7, 0x65, 0x78, 0x61, 0x6D, 0x70, 0x6C, 0x65, 3, 0x63, 0x6F, 0x6D, 0]
    );
}

#[test]
fn encode_name_rejects_long_label() {
    let long = "a".repeat(256);
    assert_eq!(Question::encode_name(&long), Err(DnsError::LabelTooLong));
    let name = format!("{}.com", "b".repeat(255));
    let wire = Question::encode_name(&name).unwrap();
    assert_eq!(wire[0], 255);
    assert_eq!(wire.len(), 1 + 255 + 1 + 3 + 1);
}

#[test]
fn encode_name_of_empty_text() {
    assert_eq!(Question::encode_name("").unwrap(), vec![0, 0]);
}

#[test]
fn decode_name_reverses_encode_name() {
    for text in ["www.example.com", "a", "x.y.z.w", "münchen.de"] {
        let wire = Question::encode_name(text).unwrap();
        let (name, end) = Question::decode_name(&wire, 0).unwrap();
        assert_eq!(name, text.as_bytes().to_vec());
        assert_eq!(end, wire.len());
    }
}

#[test]
fn decode_name_replaces_invalid_utf8() {
    let wire = vec![3, b'a', 0xFF, b'b', 3, b'c', b'o', b'm', 0];
    let (name, end) = Question::decode_name(&wire, 0).unwrap();
    assert_eq!(name, "a\u{FFFD}b.com".as_bytes().to_vec());
    assert_eq!(end, 9);
}

#[test]
fn decode_name_fails_on_short_label() {
    let wire = vec![5, b'a', b'b'];
    assert_eq!(Question::decode_name(&wire, 0), Err(DnsError::MalformedMessage));
}

#[test]
fn decode_name_fails_without_terminator() {
    let wire = vec![3, b'c', b'o', b'm'];
    assert_eq!(Question::decode_name(&wire, 0), Err(DnsError::MalformedMessage));
}

#[test]
fn decode_name_fails_on_missing_pointer_byte() {
    let wire = vec![1, b'a', 0xC0];
    assert_eq!(Question::decode_name(&wire, 0), Err(DnsError::MalformedMessage));
}

#[test]
fn decode_name_rejects_pointer_loop() {
    let wire = vec![0xC0, 0x00];
    assert_eq!(Question::decode_name(&wire, 0), Err(DnsError::MalformedMessage));
    let wire = vec![1, b'a', 0xC0, 0x04, 0xC0, 0x00];
    assert_eq!(Question::decode_name(&wire, 0), Err(DnsError::MalformedMessage));
}

#[test]
fn decode_name_follows_pointer() {
    let mut wire = Question::encode_name("example.com").unwrap();
    wire.extend([3, b'w', b'w', b'w', 0xC0, 0x00]);
    let (name, end) = Question::decode_name(&wire, 13).unwrap();
    assert_eq!(name, b"www.example.com".to_vec());
    assert_eq!(end, 19);
}

#[test]
fn question_round_trip() {
    let q = Question {
        qname: Question::encode_name("mail.example.org").unwrap(),
        qtype: 15,
        qclass: 1,
    };
    let bytes = q.to_bytes();
    let (back, end) = Question::from_bytes(&bytes, 0).unwrap();
    assert_eq!(back.qname, b"mail.example.org".to_vec());
    assert_eq!(back.qtype, 15);
    assert_eq!(back.qclass, 1);
    assert_eq!(end, bytes.len());
}

#[test]
fn question_needs_type_and_class() {
    let q = Question { qname: Question::encode_name("a.b").unwrap(), qtype: 1, qclass: 1 };
    let bytes = q.to_bytes();
    assert_eq!(
        Question::from_bytes(&bytes[..bytes.len() - 1], 0).err(),
        Some(DnsError::MalformedMessage)
    );
}

#[test]
fn record_round_trip() {
    let r = Record {
        name: Question::encode_name("example.com").unwrap(),
        record_type: 1,
        class_type: 1,
        ttl: 0x0102_0304,
        data: vec![93, 184, 216, 34],
    };
    let bytes = r.to_bytes();
    let (back, end) = Record::from_bytes(&bytes, 0).unwrap();
    assert_eq!(back.name, b"example.com".to_vec());
    assert_eq!(back.record_type, 1);
    assert_eq!(back.class_type, 1);
    assert_eq!(back.ttl, 0x0102_0304);
    assert_eq!(back.data, vec![93, 184, 216, 34]);
    assert_eq!(end, bytes.len());
}

#[test]
fn record_ns_payload_is_decoded_as_name() {
    let r = Record {
        name: Question::encode_name("com").unwrap(),
        record_type: 2,
        class_type: 1,
        ttl: 172800,
        data: Question::encode_name("a.gtld-servers.net").unwrap(),
    };
    let bytes = r.to_bytes();
    let (back, end) = Record::from_bytes(&bytes, 0).unwrap();
    assert_eq!(back.data, b"a.gtld-servers.net".to_vec());
    assert_eq!(end, bytes.len());
}

#[test]
fn record_payload_must_fit() {
    let r = Record {
        name: vec![0],
        record_type: 16,
        class_type: 1,
        ttl: 5,
        data: vec![1, 2, 3, 4, 5],
    };
    let bytes = r.to_bytes();
    for k in 0..bytes.len() {
        assert_eq!(Record::from_bytes(&bytes[..k], 0).err(), Some(DnsError::MalformedMessage));
    }
    assert!(Record::from_bytes(&bytes, 0).is_ok());
}

#[test]
fn next_n_reads_records_in_order() {
    let mut bytes = Vec::new();
    for i in 0..3u8 {
        let r = Record { name: vec![0], record_type: 1, class_type: 1, ttl: i as u32, data: vec![10, 0, 0, i] };
        bytes.extend(r.to_bytes());
    }
    let (records, end) = Record::next_n_from_bytes(3, &bytes, 0).unwrap();
    assert_eq!(records.len(), 3);
    assert_eq!(records[2].ttl, 2);
    assert_eq!(records[1].data, vec![10, 0, 0, 1]);
    assert_eq!(end, bytes.len());
    assert_eq!(
        Record::next_n_from_bytes(4, &bytes, 0).err(),
        Some(DnsError::MalformedMessage)
    );
    let (none, at) = Record::next_n_from_bytes(0, &bytes, 5).unwrap();
    assert!(none.is_empty());
    assert_eq!(at, 5);
}

/// Two questions; the second names the first through a pointer to offset 12.
fn two_question_message() -> Vec<u8> {
    let h = Header { id: 7, flags: 0, num_questions: 2, num_answers: 0, num_authorities: 0, num_additionals: 0 };
    let mut bytes = h.to_bytes();
    bytes.extend(Question { qname: Question::encode_name("example.com").unwrap(), qtype: 1, qclass: 1 }.to_bytes());
    bytes.extend(Question { qname: vec![0xC0, 12], qtype: 2, qclass: 1 }.to_bytes());
    bytes
}

#[test]
fn compressed_question_names_match() {
    let packet = Packet::from_bytes(&two_question_message()).unwrap();
    assert_eq!(packet.questions.len(), 2);
    assert_eq!(packet.questions[0].qname, b"example.com".to_vec());
    assert_eq!(packet.questions[1].qname, packet.questions[0].qname);
    assert_eq!(packet.questions[1].qtype, 2);
}

#[test]
fn truncated_message_fails_at_every_offset() {
    let bytes = two_question_message();
    for k in 0..bytes.len() {
        assert!(matches!(Packet::from_bytes(&bytes[..k]), Err(DnsError::MalformedMessage)));
    }
    assert!(Packet::from_bytes(&bytes).is_ok());
}
