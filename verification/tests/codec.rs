//! Whole-message and resource-record coding: round trips for every
//! implemented payload shape, the boundary and error cases, and the
//! building methods that keep the header counts in step.
use dns_codec::header::{Header, OperationCode, PacketType};
use dns_codec::label::{CharacterString, Label, LabelError};
use dns_codec::message::{Message, MessageParseError};
use dns_codec::question::{parse_question, Question, QuestionParseError};
use dns_codec::resource::{
    parse_resource_record, ResourceData, ResourceDataError, ResourceRecord, ResourceRecordError,
};
use dns_codec::type_class::{
    QuestionClass, QuestionType, ResourceClass, ResourceType, UnregisteredClass, UnregisteredType,
};

fn name(parts: &[&str]) -> Label {
    Label::Sequence(parts.iter().map(|p| CharacterString(p.as_bytes().to_vec())).collect())
}

fn record(data: ResourceData) -> ResourceRecord {
    ResourceRecord { name: name(&["example", "com"]), class: ResourceClass::IN, time_to_live: 60, data }
}

fn record_round_trips(r: &ResourceRecord) {
    let bytes = r.encode().unwrap();
    let (back, used) = parse_resource_record(&bytes).unwrap();
    assert_eq!(&back, r);
    assert_eq!(used, bytes.len());
}

#[test]
fn message_shorter_than_twelve_bytes_is_rejected() {
    assert_eq!(Message::decode(&[0; 11]), Err(MessageParseError::ShortBuffer));
    assert_eq!(Message::decode(&[]), Err(MessageParseError::ShortBuffer));
}

#[test]
fn twelve_zero_bytes_decode_to_the_empty_query() {
    let m = Message::decode(&[0; 12]).unwrap();
    assert_eq!(m.header.id, 0);
    assert_eq!(m.header.typ, PacketType::Query);
    assert_eq!(m.header.operation_code, OperationCode::StandardQuery);
    assert_eq!(m.header.response, Ok(()));
    assert_eq!(m.header.question_count, 0);
    assert_eq!(m.header.answer_count, 0);
    assert_eq!(m.header.authority_count, 0);
    assert_eq!(m.header.addtional_count, 0);
    assert!(m.questions.is_empty() && m.answers.is_empty());
    assert!(m.authorities.is_empty() && m.additionals.is_empty());
}

#[test]
fn built_question_survives_the_round_trip() {
    let mut m = Message::new(1234);
    m.ask("example.com", QuestionType::A, QuestionClass::IN).unwrap();
    assert_eq!(m.header.question_count, 1);
    let bytes = m.encode().unwrap();
    let back = Message::decode(&bytes).unwrap();
    assert_eq!(back.questions.len(), 1);
    assert_eq!(back.questions[0].name, name(&["example", "com"]));
    assert_eq!(back.questions[0].typ, QuestionType::A);
    assert_eq!(back.questions[0].class, QuestionClass::IN);
    assert_eq!(back, m);
}

#[test]
fn full_message_round_trips() {
    let mut m = Message::new(77);
    m.query();
    m.ask("example.com", QuestionType::MX, QuestionClass::IN).unwrap();
    m.answer(record(ResourceData::MailExchange {
        preference: 10,
        exchange: name(&["mail", "example", "com"]),
    }));
    m.authorize(record(ResourceData::SOA {
        name: name(&["ns", "example", "com"]),
        mail: name(&["admin", "example", "com"]),
        serial: 2024,
        refresh: 7200,
        retry: 600,
        expire: 86400,
        minimum: 300,
    }));
    m.add(record(ResourceData::Address(0x08080808)));
    assert_eq!(
        (m.header.question_count, m.header.answer_count, m.header.authority_count,
            m.header.addtional_count),
        (1, 1, 1, 1)
    );
    let bytes = m.encode().unwrap();
    let back = Message::decode(&bytes).unwrap();
    assert_eq!(back, m);
}

#[test]
fn pointer_compressed_name_expands_against_the_buffer() {
    // Two questions: the second name is a bare pointer to the first, which
    // starts right after the 12-byte header.
    let mut bytes = vec![0u8, 7, 1, 0, 0, 2, 0, 0, 0, 0, 0, 0];
    bytes.extend([2, b'a', b'b', 0, 0, 1, 0, 1]);
    bytes.extend([0xC0, 12, 0, 1, 0, 1]);
    let m = Message::decode(&bytes).unwrap();
    assert_eq!(m.questions.len(), 2);
    assert_eq!(m.questions[1].name, m.questions[0].name);
    assert_eq!(m.questions[0].name, name(&["ab"]));
}

#[test]
fn pointer_to_a_pointer_expands_through_the_chain() {
    // One answer whose name points to a name that itself ends in a pointer
    // to the question name.
    let mut bytes = vec![0u8, 7, 133, 0, 0, 1, 0, 1, 0, 0, 0, 0];
    bytes.extend([2, b'a', b'b', 0, 0, 1, 0, 1]);  // question "ab", offset 12
    // answer at offset 20: name = "c" + pointer to 12
    bytes.extend([1, b'c', 0xC0, 12]);
    bytes.extend([0, 1, 0, 1, 0, 0, 0, 60, 0, 4, 8, 8, 8, 8]);
    let m = Message::decode(&bytes).unwrap();
    assert_eq!(m.answers.len(), 1);
    assert_eq!(m.answers[0].name, name(&["c", "ab"]));
    assert_eq!(m.answers[0].data, ResourceData::Address(0x08080808));
}

#[test]
fn forward_pointer_in_a_message_is_rejected() {
    let mut bytes = vec![0u8, 7, 1, 0, 0, 1, 0, 0, 0, 0, 0, 0];
    // The question name points at itself.
    bytes.extend([0xC0, 12, 0, 1, 0, 1]);
    assert_eq!(
        Message::decode(&bytes),
        Err(MessageParseError::Question(QuestionParseError::Label(LabelError::InvalidPointer(
            12
        ))))
    );
}

#[test]
fn mail_exchange_payload_round_trips_with_its_preference() {
    let data = ResourceData::MailExchange { preference: 10, exchange: name(&["mail", "example", "com"]) };
    // The 16-bit preference precedes the exchange name on the wire.
    let bytes = data.encode().unwrap();
    assert_eq!(&bytes[..2], &[0, 10]);
    assert_eq!(bytes[2], 4);
    assert_eq!(&bytes[3..7], b"mail");
    record_round_trips(&record(data));
}

#[test]
fn every_implemented_payload_round_trips() {
    record_round_trips(&record(ResourceData::Address(0x7F000001)));
    record_round_trips(&record(ResourceData::NameServer(name(&["ns1", "example", "com"]))));
    record_round_trips(&record(ResourceData::MailDevice(name(&["md", "example", "com"]))));
    record_round_trips(&record(ResourceData::MailForward(name(&["mf", "example", "com"]))));
    record_round_trips(&record(ResourceData::CanonicalName(name(&["www", "example", "com"]))));
    record_round_trips(&record(ResourceData::SOA {
        name: name(&["ns", "example", "com"]),
        mail: name(&["admin", "example", "com"]),
        serial: 1,
        refresh: 2,
        retry: 3,
        expire: 4,
        minimum: 5,
    }));
    record_round_trips(&record(ResourceData::MailBox(name(&["mb", "example", "com"]))));
    record_round_trips(&record(ResourceData::MailGroup(name(&["mg", "example", "com"]))));
    record_round_trips(&record(ResourceData::MailRename(name(&["mr", "example", "com"]))));
    record_round_trips(&record(ResourceData::Null(vec![1, 2, 3, 0, 255])));
    record_round_trips(&record(ResourceData::Ptr(name(&["4", "4", "8", "8", "in-addr", "arpa"]))));
    record_round_trips(&record(ResourceData::HostInfo {
        cpu: CharacterString(b"VAX-11/780".to_vec()),
        os: CharacterString(b"UNIX".to_vec()),
    }));
    record_round_trips(&record(ResourceData::MailInfo {
        mailbox: name(&["list", "example", "com"]),
        error_mailbox: name(&["errors", "example", "com"]),
    }));
    record_round_trips(&record(ResourceData::Text(vec![
        CharacterString(b"hello".to_vec()),
        CharacterString(b"".to_vec()),
        CharacterString(b"world".to_vec()),
    ])));
}

#[test]
fn wks_is_rejected_on_both_sides() {
    // Encoding the unimplemented payload fails with the distinct error.
    let r = record(ResourceData::WKS { address: 0x7F000001, protocol: 6 });
    assert_eq!(r.encode(), Err(ResourceRecordError::Data(ResourceDataError::NotImplemented)));
    assert_eq!(
        ResourceData::WKS { address: 0, protocol: 0 }.encode(),
        Err(ResourceDataError::NotImplemented)
    );
    // Decoding a record that declares type 11 (WKS) fails the same way.
    let bytes = [0u8, 0, 11, 0, 1, 0, 0, 0, 60, 0, 0];
    assert_eq!(
        parse_resource_record(&bytes),
        Err(ResourceRecordError::Data(ResourceDataError::NotImplemented))
    );
}

#[test]
fn unregistered_type_and_class_codes_are_rejected() {
    // A record with type code 99.
    let bytes = [0u8, 0, 99, 0, 1, 0, 0, 0, 60, 0, 0];
    assert_eq!(
        parse_resource_record(&bytes),
        Err(ResourceRecordError::Type(UnregisteredType(99)))
    );
    // A record with class code 9.
    let bytes = [0u8, 0, 1, 0, 9, 0, 0, 0, 60, 0, 4, 8, 8, 8, 8];
    assert_eq!(
        parse_resource_record(&bytes),
        Err(ResourceRecordError::Class(UnregisteredClass(9)))
    );
    // A question with type code 99, then one with class code 9.
    assert_eq!(
        parse_question(&[0, 0, 99, 0, 1]),
        Err(QuestionParseError::InvalidType(UnregisteredType(99)))
    );
    assert_eq!(
        parse_question(&[0, 0, 1, 0, 9]),
        Err(QuestionParseError::InvalidClass(UnregisteredClass(9)))
    );
}

#[test]
fn question_reports_what_is_missing_after_the_name() {
    assert_eq!(parse_question(&[0]), Err(QuestionParseError::MissingTypeAndClass));
    assert_eq!(parse_question(&[0, 0]), Err(QuestionParseError::MissingTypeAndClass));
    assert_eq!(parse_question(&[0, 0, 1]), Err(QuestionParseError::MissingClass));
    assert_eq!(parse_question(&[0, 0, 1, 0]), Err(QuestionParseError::MissingClass));
    let (q, used) = parse_question(&[0, 0, 1, 0, 1]).unwrap();
    assert_eq!(q, Question { name: name(&[]), typ: QuestionType::A, class: QuestionClass::IN });
    assert_eq!(used, 5);
}

#[test]
fn question_encoding_round_trips_with_meta_types() {
    let q = Question { name: name(&["example", "com"]), typ: QuestionType::ALL, class: QuestionClass::Any };
    let bytes = q.encode().unwrap();
    let (back, used) = parse_question(&bytes).unwrap();
    assert_eq!(back, q);
    assert_eq!(used, bytes.len());
    // The meta codes sit above the plain type range.
    assert_eq!(&bytes[bytes.len() - 4..], &[0, 255, 0, 255]);
}

#[test]
fn truncated_record_is_rejected() {
    // The name parses but the ten fixed bytes are not all there.
    let bytes = [0u8, 0, 1, 0, 1];
    assert_eq!(
        parse_resource_record(&bytes),
        Err(ResourceRecordError::Label(LabelError::IncompleteBuffer))
    );
    // The declared payload length overruns the buffer.
    let bytes = [0u8, 0, 1, 0, 1, 0, 0, 0, 60, 0, 4, 8, 8];
    assert_eq!(
        parse_resource_record(&bytes),
        Err(ResourceRecordError::Label(LabelError::IncompleteBuffer))
    );
}

#[test]
fn oversized_payload_will_not_encode() {
    let r = record(ResourceData::Null(vec![0; 70000]));
    assert_eq!(r.encode(), Err(ResourceRecordError::DataTooLarge(70000)));
}

#[test]
fn record_type_is_derived_from_the_payload() {
    assert_eq!(record(ResourceData::Address(1)).typ(), ResourceType::A);
    assert_eq!(ResourceData::NameServer(name(&["a"])).typ(), ResourceType::NS);
    assert_eq!(ResourceData::Text(vec![]).typ(), ResourceType::TXT);
    assert_eq!(ResourceData::WKS { address: 0, protocol: 0 }.typ(), ResourceType::WKS);
    assert_eq!(ResourceType::from_code(15), Ok(ResourceType::MX));
    assert_eq!(ResourceType::from_code(0), Err(UnregisteredType(0)));
    assert_eq!(QuestionType::from_code(253), Ok(QuestionType::MAILB));
    assert_eq!(ResourceClass::from_code(4), Ok(ResourceClass::HS));
    assert_eq!(QuestionClass::from_code(255), Ok(QuestionClass::Any));
}

#[test]
fn building_methods_keep_counts_in_step() {
    let mut m = Message::new(5);
    assert_eq!(m.header.typ, PacketType::Response);
    m.query();
    assert_eq!(m.header.typ, PacketType::Query);
    m.respond();
    assert_eq!(m.header.typ, PacketType::Response);

    m.ask("a.b", QuestionType::TXT, QuestionClass::CH).unwrap();
    m.ask("c", QuestionType::NS, QuestionClass::HS).unwrap();
    assert_eq!(m.header.question_count as usize, m.questions.len());
    assert_eq!(m.questions.len(), 2);

    m.answer(record(ResourceData::Address(9)));
    m.authorize(record(ResourceData::NameServer(name(&["n"]))));
    m.authorize(record(ResourceData::NameServer(name(&["m"]))));
    m.add(record(ResourceData::Null(vec![])));
    assert_eq!(m.header.answer_count as usize, m.answers.len());
    assert_eq!(m.header.authority_count as usize, m.authorities.len());
    assert_eq!(m.header.addtional_count as usize, m.additionals.len());

    // A bad name leaves the message untouched.
    let before = m.clone();
    assert_eq!(
        m.ask("bad..name", QuestionType::A, QuestionClass::IN),
        Err(LabelError::IncompleteBuffer)
    );
    assert_eq!(m, before);
}

#[test]
fn decode_propagates_the_first_error() {
    // Header says one question, but its class code is unregistered.
    let mut bytes = vec![0u8, 1, 1, 0, 0, 1, 0, 0, 0, 0, 0, 0];
    bytes.extend([1, b'a', 0, 0, 1, 0, 9]);
    assert_eq!(
        Message::decode(&bytes),
        Err(MessageParseError::Question(QuestionParseError::InvalidClass(UnregisteredClass(9))))
    );
    // Header says one answer but none follows.
    let bytes = vec![0u8, 1, 1, 0, 0, 0, 0, 1, 0, 0, 0, 0];
    assert_eq!(
        Message::decode(&bytes),
        Err(MessageParseError::Resource(ResourceRecordError::Label(LabelError::IncompleteBuffer)))
    );
}
