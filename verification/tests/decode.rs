//! Tests for decoding responses: compression pointers, resource data by
//! type, and every decode-side error.

use dns_codec::answer::RData;
use dns_codec::errors::DnsError;
use dns_codec::message::Message;
use dns_codec::name::NameTable;
use dns_codec::name::decode_name;
use dns_codec::qtype::QClass;
use dns_codec::qtype::QType;

/// A 12-byte header with the given counts; id 0x1234, flags 0x8180.
fn header(qdcount: u16, ancount: u16, nscount: u16, arcount: u16) -> Vec<u8> {
    let mut b = vec![0x12, 0x34, 0x81, 0x80];
    for c in [qdcount, ancount, nscount, arcount] {
        b.push((c / 256) as u8);
        b.push((c % 256) as u8);
    }
    b
}

/// The question `example.com A IN`, starting at offset 12.
fn example_question() -> Vec<u8> {
    let mut b = vec![7];
    b.extend(b"example");
    b.push(3);
    b.extend(b"com");
    b.push(0);
    b.extend([0x00, 0x01, 0x00, 0x01]);
    b
}

/// A record whose name is a pointer to offset 12, with the given type,
/// rdlength and rdata.
fn pointer_record(rtype: u16, rdlength: u16, rdata: &[u8]) -> Vec<u8> {
    let mut b = vec![0xC0, 0x0C];
    b.extend([(rtype / 256) as u8, (rtype % 256) as u8]);
    b.extend([0x00, 0x01]); // class IN
    b.extend([0x00, 0x00, 0x00, 0x3C]); // ttl 60
    b.extend([(rdlength / 256) as u8, (rdlength % 256) as u8]);
    b.extend(rdata);
    b
}

fn one_answer_message(record: Vec<u8>) -> Vec<u8> {
    let mut buf = header(1, 1, 0, 0);
    buf.extend(example_question());
    buf.extend(record);
    buf
}

#[test]
fn pointer_name_resolves_to_earlier_name() {
    let buf = one_answer_message(pointer_record(1, 4, &[93, 184, 216, 34]));
    let msg = Message::from_bytes(&buf).unwrap();
    assert_eq!(msg.question[0].qname, "example.com.");
    assert_eq!(msg.answer.len(), 1);
    assert_eq!(msg.answer[0].name, "example.com.");
    assert_eq!(msg.answer[0].rtype, QType::A);
    assert_eq!(msg.answer[0].class, QClass::IN);
    assert_eq!(msg.answer[0].ttl, 60);
    assert_eq!(msg.answer[0].rdlength, 4);
    assert_eq!(msg.answer[0].rdata, RData::Ipv4([93, 184, 216, 34]));
}

#[test]
fn decoding_twice_gives_identical_messages() {
    let buf = one_answer_message(pointer_record(1, 4, &[93, 184, 216, 34]));
    let first = Message::from_bytes(&buf).unwrap();
    let second = Message::from_bytes(&buf).unwrap();
    assert_eq!(first, second);
}

#[test]
fn dangling_pointer_rejected() {
    // offset 0 is the header; no name was registered there
    let mut record = vec![0xC0, 0x00];
    record.extend([0x00, 0x01, 0x00, 0x01, 0, 0, 0, 60, 0, 4, 93, 184, 216, 34]);
    let buf = one_answer_message(record);
    assert_eq!(Message::from_bytes(&buf).unwrap_err(), DnsError::DanglingPointer);
}

#[test]
fn forward_pointer_rejected() {
    // a question name that points at itself: nothing is registered yet
    let mut buf = header(1, 0, 0, 0);
    buf.extend([0xC0, 0x0C, 0x00, 0x01, 0x00, 0x01]);
    assert_eq!(Message::from_bytes(&buf).unwrap_err(), DnsError::DanglingPointer);
}

#[test]
fn reserved_label_flag_rejected() {
    let mut buf = header(1, 0, 0, 0);
    buf.extend([0x41, 0x00, 0x01, 0x00, 0x01]);
    assert_eq!(Message::from_bytes(&buf).unwrap_err(), DnsError::InvalidLabelFlag);
}

#[test]
fn truncated_header_rejected() {
    let buf = vec![0x12, 0x34, 0x81];
    assert_eq!(Message::from_bytes(&buf).unwrap_err(), DnsError::TruncatedInput);
}

#[test]
fn missing_second_answer_is_truncation() {
    // the header claims two answers but the buffer holds only one
    let mut buf = header(1, 2, 0, 0);
    buf.extend(example_question());
    buf.extend(pointer_record(1, 4, &[93, 184, 216, 34]));
    assert_eq!(Message::from_bytes(&buf).unwrap_err(), DnsError::TruncatedInput);
}

#[test]
fn a_record_with_wrong_rdlength_is_malformed() {
    let buf = one_answer_message(pointer_record(1, 3, &[93, 184, 216]));
    assert_eq!(Message::from_bytes(&buf).unwrap_err(), DnsError::MalformedRecord);
}

#[test]
fn aaaa_record_decodes() {
    let rdata: Vec<u8> = (1..=16).collect();
    let buf = one_answer_message(pointer_record(28, 16, &rdata));
    let msg = Message::from_bytes(&buf).unwrap();
    let expected: [u8; 16] = [1, 2, 3, 4, 5, 6, 7, 8, 9, 10, 11, 12, 13, 14, 15, 16];
    assert_eq!(msg.answer[0].rdata, RData::Ipv6(expected));
}

#[test]
fn aaaa_record_with_wrong_rdlength_is_malformed() {
    let buf = one_answer_message(pointer_record(28, 4, &[1, 2, 3, 4]));
    assert_eq!(Message::from_bytes(&buf).unwrap_err(), DnsError::MalformedRecord);
}

#[test]
fn txt_record_decodes_first_character_string() {
    let mut rdata = vec![5];
    rdata.extend(b"hello");
    let buf = one_answer_message(pointer_record(16, 6, &rdata));
    let msg = Message::from_bytes(&buf).unwrap();
    assert_eq!(msg.answer[0].rdata, RData::Txt(String::from("hello")));
}

#[test]
fn cname_record_decodes_name() {
    let mut rdata = vec![3];
    rdata.extend(b"www");
    rdata.extend([0xC0, 0x0C]); // ... then a pointer to example.com
    let buf = one_answer_message(pointer_record(5, 6, &rdata));
    let msg = Message::from_bytes(&buf).unwrap();
    assert_eq!(msg.answer[0].rtype, QType::CNAME);
    assert_eq!(msg.answer[0].rdata, RData::Name(String::from("www.example.com.")));
}

#[test]
fn ns_record_decodes_name() {
    let mut rdata = vec![2];
    rdata.extend(b"ns");
    rdata.push(0);
    let buf = one_answer_message(pointer_record(2, 4, &rdata));
    let msg = Message::from_bytes(&buf).unwrap();
    assert_eq!(msg.answer[0].rdata, RData::Name(String::from("ns.")));
}

#[test]
fn mx_record_decodes_preference_and_exchange() {
    let mut rdata = vec![0x00, 0x0A, 4];
    rdata.extend(b"mail");
    rdata.extend([0xC0, 0x0C]);
    let buf = one_answer_message(pointer_record(15, 9, &rdata));
    let msg = Message::from_bytes(&buf).unwrap();
    assert_eq!(msg.answer[0].rdata, RData::Mx(10, String::from("mail.example.com.")));
}

#[test]
fn soa_record_decodes_all_fields() {
    let mut rdata = vec![1, b'a', 0, 1, b'b', 0];
    rdata.extend([0, 0, 0, 1]); // serial
    rdata.extend([0, 0, 0, 2]); // refresh
    rdata.extend([0, 0, 0, 3]); // retry
    rdata.extend([0, 0, 0, 4]); // expire
    rdata.extend([0, 0, 0, 5]); // minimum
    let buf = one_answer_message(pointer_record(6, 26, &rdata));
    let msg = Message::from_bytes(&buf).unwrap();
    match &msg.answer[0].rdata {
        RData::Soa(soa) => {
            assert_eq!(soa.mname, "a.");
            assert_eq!(soa.rname, "b.");
            assert_eq!(soa.serial, 1);
            assert_eq!(soa.refresh, 2);
            assert_eq!(soa.retry, 3);
            assert_eq!(soa.expire, 4);
            assert_eq!(soa.minimum, 5);
        },
        other => panic!("expected a start-of-authority record, got {:?}", other),
    }
}

#[test]
fn recognized_but_unhandled_record_type_rejected() {
    // SRV is in the enumeration but its resource data is not decoded
    let buf = one_answer_message(pointer_record(33, 4, &[0, 0, 0, 0]));
    assert_eq!(Message::from_bytes(&buf).unwrap_err(), DnsError::UnsupportedRecordType);
}

#[test]
fn unrecognized_record_type_code_rejected() {
    let buf = one_answer_message(pointer_record(999, 4, &[0, 0, 0, 0]));
    assert_eq!(Message::from_bytes(&buf).unwrap_err(), DnsError::UnsupportedRecordType);
}

#[test]
fn unknown_question_type_code_rejected() {
    let mut buf = header(1, 0, 0, 0);
    let mut q = example_question();
    q[13] = 0x00;
    q[14] = 0x63; // type code 99
    buf.extend(q);
    assert_eq!(Message::from_bytes(&buf).unwrap_err(), DnsError::UnknownType);
}

#[test]
fn unknown_class_code_rejected() {
    let mut buf = header(1, 0, 0, 0);
    let mut q = example_question();
    q[15] = 0x00;
    q[16] = 0x09; // class code 9
    buf.extend(q);
    assert_eq!(Message::from_bytes(&buf).unwrap_err(), DnsError::UnknownClass);
}

#[test]
fn pointers_reach_names_from_later_sections() {
    // authority and additional records may point at the question's name
    let mut buf = header(1, 1, 1, 1);
    buf.extend(example_question());
    buf.extend(pointer_record(1, 4, &[1, 2, 3, 4]));
    buf.extend(pointer_record(1, 4, &[5, 6, 7, 8]));
    buf.extend(pointer_record(1, 4, &[9, 10, 11, 12]));
    let msg = Message::from_bytes(&buf).unwrap();
    assert_eq!(msg.answer[0].name, "example.com.");
    assert_eq!(msg.authority[0].name, "example.com.");
    assert_eq!(msg.additional[0].name, "example.com.");
    assert_eq!(msg.authority[0].rdata, RData::Ipv4([5, 6, 7, 8]));
    assert_eq!(msg.additional[0].rdata, RData::Ipv4([9, 10, 11, 12]));
}

#[test]
fn suffix_offsets_are_registered() {
    // a pointer to the "com" label inside example.com yields the suffix
    let mut buf = header(1, 1, 0, 0);
    buf.extend(example_question());
    // offset of the "com" label is 12 + 8 = 20
    let mut record = vec![0xC0, 0x14];
    record.extend([0x00, 0x01, 0x00, 0x01, 0, 0, 0, 60, 0, 4, 1, 2, 3, 4]);
    buf.extend(record);
    let msg = Message::from_bytes(&buf).unwrap();
    assert_eq!(msg.answer[0].name, "com.");
}

#[test]
fn pointer_to_a_pointer_name_resolves_transitively() {
    // the first answer's name is itself a lone pointer to offset 12; the
    // whole resulting name is registered at that pointer's own offset
    // (29), so the second answer may point there
    let mut buf = header(1, 2, 0, 0);
    buf.extend(example_question());
    buf.extend(pointer_record(1, 4, &[1, 2, 3, 4])); // name at offset 29
    let mut second = vec![0xC0, 29];
    second.extend([0x00, 0x01, 0x00, 0x01, 0, 0, 0, 60, 0, 4, 5, 6, 7, 8]);
    buf.extend(second);
    let msg = Message::from_bytes(&buf).unwrap();
    assert_eq!(msg.answer[0].name, "example.com.");
    assert_eq!(msg.answer[1].name, "example.com.");
}

#[test]
fn root_name_decodes_empty() {
    // a question for the root name: a lone terminator byte
    let mut buf = header(1, 0, 0, 0);
    buf.extend([0x00, 0x00, 0x01, 0x00, 0x01]);
    let msg = Message::from_bytes(&buf).unwrap();
    assert_eq!(msg.question[0].qname, "");
}

#[test]
fn name_table_registers_and_looks_up() {
    let buf: Vec<u8> = vec![3, b'f', b'o', b'o', 0];
    let mut table = NameTable::new();
    assert!(table.get(0).is_none());
    let (name, end) = decode_name(&buf, 0, &mut table).unwrap();
    assert_eq!(name, "foo.");
    assert_eq!(end, 5);
    assert_eq!(table.get(0).unwrap(), "foo.");
    assert!(table.get(1).is_none());
}

#[test]
fn high_bytes_pass_through_as_code_points() {
    // label bytes above 127 map to the characters with the same code point
    let mut buf = header(1, 0, 0, 0);
    buf.extend([2, 0xC3, 0xA9, 0, 0x00, 0x01, 0x00, 0x01]);
    let msg = Message::from_bytes(&buf).unwrap();
    let chars: Vec<char> = msg.question[0].qname.chars().collect();
    assert_eq!(chars, vec!['\u{C3}', '\u{A9}', '.']);
}
