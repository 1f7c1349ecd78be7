//! Header decoding: field extraction, flag bits and the reserved-code
//! policy, on exact byte patterns.
use dns_codec::header::{Header, HeaderBuilder, HeaderError, HeaderParseError, OperationCode, PacketType};

fn query_header(id: u16, operation_code: OperationCode, recursion_desired: bool, qd: u16) -> Header {
    Header {
        id,
        typ: PacketType::Query,
        operation_code,
        authoritative_answer: false,
        truncated_message: false,
        recursion_desired,
        recursion_available: false,
        response: Ok(()),
        question_count: qd,
        answer_count: 0,
        authority_count: 0,
        addtional_count: 0,
    }
}

#[test]
fn parse_compressed_packet_section_stage() {
    assert_eq!(
        Header::decode(&[89, 81, 1, 0, 0, 1, 0, 0, 0, 0, 0, 0]).unwrap(),
        query_header(22865, OperationCode::StandardQuery, true, 1)
    );

    assert_eq!(
        Header::decode(&[85, 132, 1, 0, 0, 2, 0, 0, 0, 0, 0, 0]).unwrap(),
        query_header(21892, OperationCode::StandardQuery, true, 2)
    );
}

#[test]
fn parse_question_section_stage() {
    assert_eq!(
        Header::decode(&[37, 206, 1, 0, 0, 1, 0, 0, 0, 0, 0, 0]).unwrap(),
        query_header(9678, OperationCode::StandardQuery, true, 1)
    );

    assert_eq!(
        Header::decode(&[235, 215, 1, 0, 0, 1, 0, 0, 0, 0, 0, 0]).unwrap(),
        query_header(60375, OperationCode::StandardQuery, true, 1)
    );
}

#[test]
fn parse_header_section_stage() {
    assert_eq!(
        Header::decode(&[242, 139, 1, 0, 0, 1, 0, 0, 0, 0, 0, 0]).unwrap(),
        query_header(62091, OperationCode::StandardQuery, true, 1)
    );

    assert_eq!(
        Header::decode(&[189, 13, 1, 0, 0, 1, 0, 0, 0, 0, 0, 0]).unwrap(),
        query_header(48397, OperationCode::StandardQuery, true, 1)
    );

    assert_eq!(
        Header::decode(&[189, 13, 9, 0, 0, 1, 0, 0, 0, 0, 0, 0]).unwrap(),
        query_header(48397, OperationCode::InverseQuery, true, 1)
    );

    assert_eq!(
        Header::decode(&[189, 13, 17, 0, 0, 1, 0, 0, 0, 0, 0, 0]).unwrap(),
        query_header(48397, OperationCode::StatusRequest, true, 1)
    );

    // Operation code 3 is reserved: the decoder rejects it rather than
    // coercing it into a catch-all value.
    assert_eq!(
        Header::decode(&[189, 13, 25, 0, 0, 1, 0, 0, 0, 0, 0, 0]),
        Err(HeaderParseError::ReservedOperationCode(3))
    );

    assert_eq!(
        Header::decode(&[189, 13, 0, 0, 0, 1, 0, 0, 0, 0, 0, 0]).unwrap(),
        query_header(48397, OperationCode::StandardQuery, false, 1)
    );

    assert_eq!(
        Header::decode(&[189, 13, 8, 0, 0, 1, 0, 0, 0, 0, 0, 0]).unwrap(),
        query_header(48397, OperationCode::InverseQuery, false, 1)
    );

    assert_eq!(
        Header::decode(&[189, 13, 16, 0, 0, 1, 0, 0, 0, 0, 0, 0]).unwrap(),
        query_header(48397, OperationCode::StatusRequest, false, 1)
    );

    assert_eq!(
        Header::decode(&[189, 13, 24, 0, 0, 1, 0, 0, 0, 0, 0, 0]),
        Err(HeaderParseError::ReservedOperationCode(3))
    );
}

#[test]
fn write_answer_section_stage() {
    assert_eq!(
        Header::decode(&[206, 83, 1, 0, 0, 1, 0, 0, 0, 0, 0, 0]).unwrap(),
        query_header(52819, OperationCode::StandardQuery, true, 1)
    );

    assert_eq!(
        Header::decode(&[4, 210, 1, 0, 0, 1, 0, 0, 0, 0, 0, 0]).unwrap(),
        query_header(1234, OperationCode::StandardQuery, true, 1)
    );
}

#[test]
fn write_question_section_stage() {
    assert_eq!(
        Header::decode(&[176, 243, 1, 0, 0, 1, 0, 0, 0, 0, 0, 0]).unwrap(),
        query_header(45299, OperationCode::StandardQuery, true, 1)
    );

    assert_eq!(
        Header::decode(&[4, 210, 1, 0, 0, 1, 0, 0, 0, 0, 0, 0]).unwrap(),
        query_header(1234, OperationCode::StandardQuery, true, 1)
    );
}

#[test]
fn write_header_section_stage() {
    assert_eq!(
        Header::decode(&[176, 132, 1, 0, 0, 1, 0, 0, 0, 0, 0, 0]).unwrap(),
        query_header(45188, OperationCode::StandardQuery, true, 1)
    );

    assert_eq!(
        Header::decode(&[4, 210, 1, 0, 0, 1, 0, 0, 0, 0, 0, 0]).unwrap(),
        query_header(1234, OperationCode::StandardQuery, true, 1)
    );
}

#[test]
fn setup_udp_server_stage() {
    assert_eq!(
        Header::decode(&[147, 193, 1, 0, 0, 1, 0, 0, 0, 0, 0, 0]).unwrap(),
        query_header(37825, OperationCode::StandardQuery, true, 1)
    );
}

#[test]
fn header_rejects_wrong_sizes() {
    assert_eq!(
        Header::decode(&[0; 11]),
        Err(HeaderParseError::SliceSizeMismatch(11))
    );
    assert_eq!(
        Header::decode(&[0; 13]),
        Err(HeaderParseError::SliceSizeMismatch(13))
    );
}

#[test]
fn header_rejects_reserved_response_code() {
    // Response codes 6..=15 are reserved.
    assert_eq!(
        Header::decode(&[0, 0, 0, 6, 0, 0, 0, 0, 0, 0, 0, 0]),
        Err(HeaderParseError::ReservedResponseCode(6))
    );
    assert_eq!(
        Header::decode(&[0, 0, 0, 15, 0, 0, 0, 0, 0, 0, 0, 0]),
        Err(HeaderParseError::ReservedResponseCode(15))
    );
}

#[test]
fn header_rejects_nonzero_z_bits() {
    assert_eq!(
        Header::decode(&[0, 0, 0, 16, 0, 0, 0, 0, 0, 0, 0, 0]),
        Err(HeaderParseError::ReservedZFlag(1))
    );
    assert_eq!(
        Header::decode(&[0, 0, 0, 112, 0, 0, 0, 0, 0, 0, 0, 0]),
        Err(HeaderParseError::ReservedZFlag(7))
    );
}

#[test]
fn header_round_trips_every_flag_and_status() {
    let statuses: [Result<(), HeaderError>; 6] = [
        Ok(()),
        Err(HeaderError::Format),
        Err(HeaderError::ServerFailure),
        Err(HeaderError::Name),
        Err(HeaderError::NotImplemented),
        Err(HeaderError::Resfused),
    ];
    let opcodes = [
        OperationCode::StandardQuery,
        OperationCode::InverseQuery,
        OperationCode::StatusRequest,
    ];
    for (i, &response) in statuses.iter().enumerate() {
        for &operation_code in opcodes.iter() {
            let h = Header {
                id: 40000 + i as u16,
                typ: if i % 2 == 0 { PacketType::Query } else { PacketType::Response },
                operation_code,
                authoritative_answer: i % 2 == 0,
                truncated_message: i % 3 == 0,
                recursion_desired: i % 2 == 1,
                recursion_available: i % 3 == 1,
                response,
                question_count: 1,
                answer_count: 2,
                authority_count: 3,
                addtional_count: 4,
            };
            let bytes = h.encode();
            assert_eq!(bytes.len(), 12);
            assert_eq!(Header::decode(&bytes).unwrap(), h);
        }
    }
}

#[test]
fn reserved_operation_code_encodes_but_never_decodes() {
    let mut h = Header::default();
    h.operation_code = OperationCode::Reserved(7);
    let bytes = h.encode();
    assert_eq!(Header::decode(&bytes), Err(HeaderParseError::ReservedOperationCode(7)));
}

#[test]
fn header_encodes_exact_bytes() {
    let h = Header {
        id: 22865,
        typ: PacketType::Query,
        operation_code: OperationCode::StandardQuery,
        authoritative_answer: false,
        truncated_message: false,
        recursion_desired: true,
        recursion_available: false,
        response: Ok(()),
        question_count: 1,
        answer_count: 0,
        authority_count: 0,
        addtional_count: 0,
    };
    assert_eq!(h.encode(), vec![89, 81, 1, 0, 0, 1, 0, 0, 0, 0, 0, 0]);
}

#[test]
fn header_builder_fills_defaults() {
    let h = HeaderBuilder::new().build();
    assert_eq!(h, Header::default());
    assert_eq!(h.id, 1234);
    assert_eq!(h.typ, PacketType::Response);
    assert_eq!(h.operation_code, OperationCode::StandardQuery);
    assert_eq!(h.response, Ok(()));
    assert_eq!(h.question_count, 0);

    let built = HeaderBuilder::new()
        .id(7)
        .typ(PacketType::Query)
        .operation_code(OperationCode::StatusRequest)
        .authoritative_answer(true)
        .truncated_message(true)
        .recursion_desired(true)
        .recursion_available(true)
        .question_count(1)
        .answer_count(2)
        .authority_count(3)
        .additional_count(4)
        .response(Some(HeaderError::Name))
        .build();
    assert_eq!(built.id, 7);
    assert_eq!(built.typ, PacketType::Query);
    assert_eq!(built.operation_code, OperationCode::StatusRequest);
    assert!(built.authoritative_answer && built.truncated_message);
    assert!(built.recursion_desired && built.recursion_available);
    assert_eq!(built.response, Err(HeaderError::Name));
    assert_eq!(
        (built.question_count, built.answer_count, built.authority_count, built.addtional_count),
        (1, 2, 3, 4)
    );
}
