//! Tests for building and serializing queries.

use dns_codec::errors::DnsError;
use dns_codec::header::Header;
use dns_codec::message::Message;
use dns_codec::qtype::QClass;
use dns_codec::question::Question;
use dns_codec::qtype::QType;
use dns_codec::wire::read_u16;
use dns_codec::wire::read_u32;
use dns_codec::wire::write_u16;
use dns_codec::wire::write_u32;

use dns_parser::QueryType;

#[test]
fn main_create_query() {
    let domain = "tomase.pt";
    let qtype = "A";
    let qclass = "IN";

    let packet = Message::create_query(domain, qtype, qclass).unwrap();

    let mut builder = dns_parser::Builder::new_query(packet.header.id, true);

    builder.add_question(domain, false, QueryType::A, dns_parser::QueryClass::IN);

    let reference = builder.build().unwrap();

    assert_eq!(packet.to_bytes().unwrap(), reference)
}

#[test]
fn message_create_query() {
    let domain = "tomase.pt";
    let qtype = "A";
    let qclass = "IN";

    let packet = Message::create_query(domain, qtype, qclass).unwrap();

    let mut builder = dns_parser::Builder::new_query(packet.header.id, true);

    builder.add_question(domain, false, QueryType::A, dns_parser::QueryClass::IN);

    let reference = builder.build().unwrap();

    assert_eq!(packet.to_bytes().unwrap(), reference)
}

#[test]
fn query_bytes_layout() {
    // after the random id: flags with only RD set, counts 1/0/0/0,
    // the length-prefixed labels of example.com, then QTYPE=A, QCLASS=IN
    let packet = Message::create_query("example.com", "A", "IN").unwrap();
    let bytes = packet.to_bytes().unwrap();
    let expected_tail: Vec<u8> = vec![
        0x01, 0x00, // flags: RD
        0x00, 0x01, 0x00, 0x00, 0x00, 0x00, 0x00, 0x00, // counts
        7, b'e', b'x', b'a', b'm', b'p', b'l', b'e', 3, b'c', b'o', b'm', 0, // qname
        0x00, 0x01, // QTYPE=A
        0x00, 0x01, // QCLASS=IN
    ];
    assert_eq!(&bytes[2..], &expected_tail[..]);
    assert_eq!(bytes[0], (packet.header.id / 256) as u8);
    assert_eq!(bytes[1], (packet.header.id % 256) as u8);
}

#[test]
fn query_round_trips() {
    let packet = Message::create_query("example.com", "MX", "IN").unwrap();
    let bytes = packet.to_bytes().unwrap();
    let decoded = Message::from_bytes(&bytes).unwrap();
    assert_eq!(decoded.header, packet.header);
    assert_eq!(decoded.question.len(), 1);
    assert_eq!(decoded.question[0].qname, "example.com.");
    assert_eq!(decoded.question[0].qtype, QType::MX);
    assert_eq!(decoded.question[0].qclass, QClass::IN);
    assert!(decoded.answer.is_empty());
    assert!(decoded.authority.is_empty());
    assert!(decoded.additional.is_empty());
}

#[test]
fn domain_whitespace_is_trimmed() {
    let packet = Message::create_query("  example.com\t", "A", "IN").unwrap();
    assert_eq!(packet.question[0].qname, "example.com");
    let plain = Message::create_query("example.com", "A", "IN").unwrap();
    assert_eq!(packet.to_bytes().unwrap()[2..], plain.to_bytes().unwrap()[2..]);
}

#[test]
fn unicode_whitespace_is_trimmed() {
    let q = Question::create_query_question("\u{00A0}example.com\u{3000}\r\n", "A", "IN")
        .unwrap();
    assert_eq!(q.qname, "example.com");
}

#[test]
fn whitespace_only_domain_trims_to_the_root() {
    let packet = Message::create_query(" \t ", "A", "IN").unwrap();
    assert_eq!(packet.question[0].qname, "");
    let bytes = packet.to_bytes().unwrap();
    assert_eq!(bytes[12], 0);
}

#[test]
fn wide_character_label_fails_encode() {
    let packet = Message::create_query("\u{20AC}xample.com", "A", "IN").unwrap();
    assert_eq!(packet.to_bytes().unwrap_err(), DnsError::LabelTooLong);
}

#[test]
fn unknown_type_mnemonic_rejected() {
    assert_eq!(
        Message::create_query("example.com", "BOGUS", "IN").unwrap_err(),
        DnsError::UnknownType
    );
}

#[test]
fn unknown_class_mnemonic_rejected() {
    assert_eq!(
        Message::create_query("example.com", "A", "XX").unwrap_err(),
        DnsError::UnknownClass
    );
}

#[test]
fn label_of_63_bytes_encodes() {
    let label: String = std::iter::repeat('a').take(63).collect();
    let domain = format!("{}.com", label);
    let packet = Message::create_query(&domain, "A", "IN").unwrap();
    let bytes = packet.to_bytes().unwrap();
    assert_eq!(bytes[12], 63);
    let decoded = Message::from_bytes(&bytes).unwrap();
    assert_eq!(decoded.question[0].qname, format!("{}.com.", label));
}

#[test]
fn label_of_64_bytes_fails_encode() {
    let label: String = std::iter::repeat('a').take(64).collect();
    let domain = format!("{}.com", label);
    let packet = Message::create_query(&domain, "A", "IN").unwrap();
    assert_eq!(packet.to_bytes().unwrap_err(), DnsError::LabelTooLong);
}

#[test]
fn name_over_255_bytes_fails_encode() {
    let label: String = std::iter::repeat('a').take(50).collect();
    let domain = vec![label.as_str(); 5].join(".");
    let packet = Message::create_query(&domain, "A", "IN").unwrap();
    assert_eq!(packet.to_bytes().unwrap_err(), DnsError::NameTooLong);
}

#[test]
fn empty_labels_are_skipped() {
    let packet = Message::create_query("example.com.", "A", "IN").unwrap();
    let bytes = packet.to_bytes().unwrap();
    let plain = Message::create_query("example.com", "A", "IN").unwrap();
    assert_eq!(bytes[2..], plain.to_bytes().unwrap()[2..]);
}

#[test]
fn qtype_codes_round_trip() {
    let cases = [
        (QType::A, 1u16),
        (QType::NS, 2),
        (QType::CNAME, 5),
        (QType::SOA, 6),
        (QType::PTR, 12),
        (QType::MX, 15),
        (QType::TXT, 16),
        (QType::AAAA, 28),
        (QType::SRV, 33),
        (QType::OPT, 41),
        (QType::CAA, 257),
    ];
    for (t, code) in cases {
        assert_eq!(t.code(), code);
        assert_eq!(QType::from_u16(code).unwrap(), t);
    }
    assert_eq!(QType::from_u16(3).unwrap_err(), DnsError::UnknownType);
    let mut buf = Vec::new();
    QType::CAA.to_bytes(&mut buf);
    assert_eq!(buf, vec![0x01, 0x01]);
}

#[test]
fn qtype_mnemonics() {
    for name in ["A", "NS", "CNAME", "SOA", "PTR", "MX", "TXT", "AAAA", "SRV", "OPT", "CAA"] {
        let t = QType::from_str(name).unwrap();
        let code = t.code();
        assert_eq!(QType::from_u16(code).unwrap(), t);
    }
    assert_eq!(QType::from_str("a").unwrap_err(), DnsError::UnknownType);
}

#[test]
fn qclass_codes_round_trip() {
    let cases = [
        (QClass::IN, 1u16),
        (QClass::CS, 2),
        (QClass::CH, 3),
        (QClass::HS, 4),
        (QClass::ANY, 255),
    ];
    for (c, code) in cases {
        assert_eq!(c.code(), code);
        assert_eq!(QClass::from_u16(code).unwrap(), c);
        assert_eq!(QClass::from_str(match c {
            QClass::IN => "IN",
            QClass::CS => "CS",
            QClass::CH => "CH",
            QClass::HS => "HS",
            QClass::ANY => "ANY",
        })
        .unwrap(), c);
    }
    assert_eq!(QClass::from_u16(9).unwrap_err(), DnsError::UnknownClass);
    assert_eq!(QClass::from_str("in").unwrap_err(), DnsError::UnknownClass);
}

#[test]
fn wire_primitives() {
    let mut buf = Vec::new();
    write_u16(&mut buf, 0x1234);
    assert_eq!(buf, vec![0x12, 0x34]);
    write_u32(&mut buf, 0xDEADBEEF);
    assert_eq!(buf, vec![0x12, 0x34, 0xDE, 0xAD, 0xBE, 0xEF]);
    let (v16, p) = read_u16(&buf, 0).unwrap();
    assert_eq!((v16, p), (0x1234, 2));
    let (v32, p) = read_u32(&buf, 2).unwrap();
    assert_eq!((v32, p), (0xDEADBEEF, 6));
    assert_eq!(read_u32(&buf, 3).unwrap_err(), DnsError::TruncatedInput);
    assert_eq!(read_u16(&buf, 5).unwrap_err(), DnsError::TruncatedInput);
}

#[test]
fn header_flag_accessors() {
    let h = Header { id: 7, flags: 0x8193, qdcount: 1, ancount: 2, nscount: 0, arcount: 0 };
    assert_eq!(h.qr(), 1);
    assert_eq!(h.opcode(), 0);
    assert_eq!(h.aa(), 0);
    assert_eq!(h.tc(), 0);
    assert_eq!(h.rd(), 1);
    assert_eq!(h.ra(), 1);
    assert_eq!(h.z(), 1);
    assert_eq!(h.rcode(), 3);
}

#[test]
fn header_bytes_round_trip() {
    let h = Header {
        id: 0xABCD,
        flags: 0x0100,
        qdcount: 1,
        ancount: 0,
        nscount: 0,
        arcount: 0,
    };
    let mut buf = Vec::new();
    h.to_bytes(&mut buf);
    assert_eq!(buf, vec![0xAB, 0xCD, 0x01, 0x00, 0x00, 0x01, 0, 0, 0, 0, 0, 0]);
    let (h2, end) = Header::from_bytes(&buf, 0).unwrap();
    assert_eq!(h2, h);
    assert_eq!(end, 12);
    assert_eq!(Header::from_bytes(&vec![0u8; 5], 0).unwrap_err(), DnsError::TruncatedInput);
}

#[test]
fn create_query_header_shape() {
    let h = Header::create_query_header();
    assert_eq!(h.flags, 0x0100);
    assert_eq!(h.qdcount, 1);
    assert_eq!(h.ancount, 0);
    assert_eq!(h.nscount, 0);
    assert_eq!(h.arcount, 0);
}
