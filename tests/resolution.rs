use dns_resolver::{DnsError, Header, Next, Packet, Question, Record, Resolver};

fn record(name: &str, record_type: u16, data: Vec<u8>) -> Record {
    Record { name: Question::encode_name(name).unwrap(), record_type, class_type: 1, ttl: 3600, data }
}

fn message(answers: &[Record], authorities: &[Record], additionals: &[Record]) -> Vec<u8> {
    let h = Header {
        id: 1,
        flags: 0x8000,
        num_questions: 1,
        num_answers: answers.len() as u16,
        num_authorities: authorities.len() as u16,
        num_additionals: additionals.len() as u16,
    };
    let mut bytes = h.to_bytes();
    bytes.extend(Question { qname: Question::encode_name("example.com").unwrap(), qtype: 1, qclass: 1 }.to_bytes());
    for r in answers.iter().chain(authorities).chain(additionals) {
        bytes.extend(r.to_bytes());
    }
    bytes
}

fn first_query() -> dns_resolver::Query {
    Resolver::start(b"example.com.", 1, 8)
}

#[test]
fn build_query_literal_bytes() {
    let q = Resolver::build_query(b"example.com", 1).unwrap();
    let expected = vec![
        0x00, 0x01, 0x00, 0x00, 0x00, 0x01, 0x00, 0x00, 0x00, 0x00, 0x00, 0x00, 0x07, 0x65, 0x78,
        0x61, 0x6D, 0x70, 0x6C, 0x65, 0x03, 0x63, 0x6F, 0x6D, 0x00, 0x00, 0x01, 0x00, 0x01,
    ];
    assert_eq!(q, expected);
}

#[test]
fn build_query_rejects_long_label() {
    let name = vec![b'x'; 300];
    assert_eq!(Resolver::build_query(&name, 1), Err(DnsError::LabelTooLong));
}

#[test]
fn parse_ip_renders_dotted_decimal() {
    assert_eq!(Resolver::parse_ip(&[198, 41, 0, 4]), Some(b"198.41.0.4".to_vec()));
    assert_eq!(Resolver::parse_ip(&[0, 9, 10, 255]), Some(b"0.9.10.255".to_vec()));
    assert_eq!(Resolver::parse_ip(&[1, 2, 3]), None);
    assert_eq!(Resolver::parse_ip(&[1, 2, 3, 4, 5]), None);
}

#[test]
fn start_trims_one_trailing_dot() {
    let q = first_query();
    assert_eq!(q.domain_name, b"example.com".to_vec());
    assert_eq!(q.nameserver, b"198.41.0.4".to_vec());
    assert_eq!(q.hops_left, 8);
    assert_eq!(Resolver::start(b"com..", 1, 1).domain_name, b"com.".to_vec());
}

#[test]
fn direct_answer_wins_over_delegation() {
    let bytes = message(
        &[record("example.com", 1, vec![93, 184, 216, 34])],
        &[record("com", 2, Question::encode_name("a.gtld-servers.net").unwrap())],
        &[record("a.gtld-servers.net", 1, vec![192, 5, 6, 30])],
    );
    let packet = Packet::from_bytes(&bytes).unwrap();
    match Resolver::advance(&first_query(), &packet) {
        Next::Resolved(ip) => assert_eq!(ip, b"93.184.216.34".to_vec()),
        other => panic!("unexpected step {:?}", other),
    }
}

#[test]
fn first_address_answer_is_taken() {
    let bytes = message(
        &[record("example.com", 5, Question::encode_name("x.example.com").unwrap()), record("example.com", 1, vec![1, 1, 1, 1]), record("example.com", 1, vec![2, 2, 2, 2])],
        &[],
        &[],
    );
    let packet = Packet::from_bytes(&bytes).unwrap();
    assert_eq!(Resolver::get_answer(&packet), Some(b"1.1.1.1".to_vec()));
}

#[test]
fn glue_from_compressed_referral() {
    // The authority record's owner name is a pointer to "com" inside the
    // question name "example.com" at offset 12 + 8.
    let h = Header { id: 1, flags: 0x8000, num_questions: 1, num_answers: 0, num_authorities: 1, num_additionals: 1 };
    let mut bytes = h.to_bytes();
    bytes.extend(Question { qname: Question::encode_name("example.com").unwrap(), qtype: 1, qclass: 1 }.to_bytes());
    let ns = Record { name: vec![0xC0, 20], record_type: 2, class_type: 1, ttl: 172800, data: Question::encode_name("a.gtld-servers.net").unwrap() };
    bytes.extend(ns.to_bytes());
    bytes.extend(record("a.gtld-servers.net", 1, vec![192, 5, 6, 30]).to_bytes());
    let packet = Packet::from_bytes(&bytes).unwrap();
    assert_eq!(packet.authorities[0].name, b"com".to_vec());
    assert_eq!(Resolver::get_nameserver_ip(&packet), Some(b"192.5.6.30".to_vec()));
    match Resolver::advance(&first_query(), &packet) {
        Next::Ask(q) => {
            assert_eq!(q.nameserver, b"192.5.6.30".to_vec());
            assert_eq!(q.domain_name, b"example.com".to_vec());
            assert_eq!(q.record_type, 1);
            assert_eq!(q.hops_left, 7);
        }
        other => panic!("unexpected step {:?}", other),
    }
}

#[test]
fn referral_without_glue_looks_up_nameserver() {
    let bytes = message(
        &[],
        &[record("com", 2, vec![]), record("com", 2, Question::encode_name("ns1.example.net").unwrap())],
        &[],
    );
    let packet = Packet::from_bytes(&bytes).unwrap();
    assert_eq!(Resolver::get_nameserver(&packet), Some(b"ns1.example.net".to_vec()));
    match Resolver::advance(&first_query(), &packet) {
        Next::Lookup(sub) => {
            assert_eq!(sub.nameserver, b"198.41.0.4".to_vec());
            assert_eq!(sub.domain_name, b"ns1.example.net".to_vec());
            assert_eq!(sub.record_type, 1);
            assert_eq!(sub.hops_left, 7);
        }
        other => panic!("unexpected step {:?}", other),
    }
    match Resolver::resume(&first_query(), b"10.0.0.1".to_vec()) {
        Next::Ask(q) => {
            assert_eq!(q.nameserver, b"10.0.0.1".to_vec());
            assert_eq!(q.domain_name, b"example.com".to_vec());
            assert_eq!(q.hops_left, 7);
        }
        other => panic!("unexpected step {:?}", other),
    }
}

#[test]
fn empty_reply_is_not_found() {
    let bytes = message(&[], &[], &[]);
    let packet = Packet::from_bytes(&bytes).unwrap();
    match Resolver::advance(&first_query(), &packet) {
        Next::Failed(e) => assert_eq!(e, DnsError::NotFound),
        other => panic!("unexpected step {:?}", other),
    }
}

#[test]
fn exhausted_budget_stops() {
    let bytes = message(&[], &[], &[record("ns.example", 1, vec![10, 0, 0, 2])]);
    let packet = Packet::from_bytes(&bytes).unwrap();
    let q = Resolver::start(b"example.com", 1, 0);
    match Resolver::advance(&q, &packet) {
        Next::Failed(e) => assert_eq!(e, DnsError::TooManyHops),
        other => panic!("unexpected step {:?}", other),
    }
    match Resolver::resume(&q, b"10.0.0.2".to_vec()) {
        Next::Failed(e) => assert_eq!(e, DnsError::TooManyHops),
        other => panic!("unexpected step {:?}", other),
    }
}
