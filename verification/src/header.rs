//! The fixed 12-byte message header.
//!
//! ```txt
//!                                     1  1  1  1  1  1
//!       0  1  2  3  4  5  6  7  8  9  0  1  2  3  4  5
//!     +--+--+--+--+--+--+--+--+--+--+--+--+--+--+--+--+
//!     |                      ID                       |
//!     +--+--+--+--+--+--+--+--+--+--+--+--+--+--+--+--+
//!     |QR|   Opcode  |AA|TC|RD|RA|   Z    |   RCODE   |
//!     +--+--+--+--+--+--+--+--+--+--+--+--+--+--+--+--+
//!     |                    QDCOUNT                    |
//!     +--+--+--+--+--+--+--+--+--+--+--+--+--+--+--+--+
//!     |                    ANCOUNT                    |
//!     +--+--+--+--+--+--+--+--+--+--+--+--+--+--+--+--+
//!     |                    NSCOUNT                    |
//!     +--+--+--+--+--+--+--+--+--+--+--+--+--+--+--+--+
//!     |                    ARCOUNT                    |
//!     +--+--+--+--+--+--+--+--+--+--+--+--+--+--+--+--+
//! ```
use vstd::prelude::*;

use crate::wire::{be_u16, lemma_u16_of_bytes, push_u16, u16_of};

verus! {

/// The parsed header fields.
#[derive(Debug, Clone, Copy, PartialEq, Eq)]
pub struct Header {
    /// A random identifier is assigned to query packets.  Response packets
    /// must reply with the same id, which tells apart the answers arriving
    /// over a stateless transport.
    pub id: u16,
    /// Whether this message is a query or a response.
    pub typ: PacketType,
    /// The kind of query in this message.  Set by the originator of a query
    /// and copied into the response.
    pub operation_code: OperationCode,
    /// Valid in responses: the responding name server is an authority for
    /// the domain name in the question section.
    pub authoritative_answer: bool,
    /// The message was truncated to fit the transmission channel.
    pub truncated_message: bool,
    /// Directs the name server to pursue the query recursively.  May be set
    /// in a query; copied into the response.
    pub recursion_desired: bool,
    /// Whether recursive query support is available in the name server.
    pub recursion_available: bool,
    /// Response status code.
    pub response: Result<(), HeaderError>,
    /// The number of entries in the question section.
    pub question_count: u16,
    /// The number of entries in the answer section.
    pub answer_count: u16,
    /// The number of entries in the authority section.
    pub authority_count: u16,
    /// The number of entries in the additional section.
    pub addtional_count: u16,
}

/// Whether this message is a query or a response.
#[derive(Debug, Clone, Copy, PartialEq, Eq, Structural)]
pub enum PacketType {
    Query,
    Response,
}

/// The kind of query carried in a message.
#[derive(Debug, Clone, Copy, PartialEq, Eq, Structural)]
pub enum OperationCode {
    StandardQuery,
    InverseQuery,
    StatusRequest,
    /// One of the numeric codes that the registry reserves for future use.
    /// Decoding rejects them; the variant exists so that a header carrying
    /// one can still be written down.
    Reserved(u16),
}

/// The defined non-zero response status codes.
#[derive(Debug, Clone, Copy, PartialEq, Eq, Structural)]
pub enum HeaderError {
    /// The name server was unable to interpret the query.
    Format,
    /// The name server was unable to process this query due to a problem
    /// with the name server.
    ServerFailure,
    /// The domain name referenced in the query does not exist.
    Name,
    /// The name server does not support the requested kind of query.
    NotImplemented,
    /// The name server refuses to perform the specified operation for
    /// policy reasons.
    Resfused,
}

/// The ways a 12-byte header can fail to parse.
#[derive(Debug, Clone, Copy, PartialEq, Eq, Structural)]
pub enum HeaderParseError {
    /// Parsing a header from a slice that is not of size 12.
    SliceSizeMismatch(usize),
    /// The operation code is reserved (in range `3..=15`).
    ReservedOperationCode(u8),
    /// The response code is reserved (in range `6..=15`).
    ReservedResponseCode(u8),
    /// The `Z` bits are not zero.
    ReservedZFlag(u8),
}

/// The numeric operation code of a header.
pub open spec fn operation_code_num(oc: OperationCode) -> u16 {
    match oc {
        OperationCode::StandardQuery => 0,
        OperationCode::InverseQuery => 1,
        OperationCode::StatusRequest => 2,
        OperationCode::Reserved(code) => code,
    }
}

/// The operation code that a 4-bit wire value in `0..=2` denotes.
pub open spec fn operation_code_of(num: u8) -> OperationCode {
    if num == 0 {
        OperationCode::StandardQuery
    } else if num == 1 {
        OperationCode::InverseQuery
    } else {
        OperationCode::StatusRequest
    }
}

/// The 4-bit response code of a status.
pub open spec fn response_code(r: Result<(), HeaderError>) -> u8 {
    match r {
        Ok(_) => 0,
        Err(HeaderError::Format) => 1,
        Err(HeaderError::ServerFailure) => 2,
        Err(HeaderError::Name) => 3,
        Err(HeaderError::NotImplemented) => 4,
        Err(HeaderError::Resfused) => 5,
    }
}

/// The status that a 4-bit wire value in `0..=5` denotes.
pub open spec fn response_of(code: u8) -> Result<(), HeaderError> {
    if code == 0 {
        Ok(())
    } else if code == 1 {
        Err(HeaderError::Format)
    } else if code == 2 {
        Err(HeaderError::ServerFailure)
    } else if code == 3 {
        Err(HeaderError::Name)
    } else if code == 4 {
        Err(HeaderError::NotImplemented)
    } else {
        Err(HeaderError::Resfused)
    }
}

/// The QR bit of a packet type.
pub open spec fn packet_type_bit(t: PacketType) -> u8 {
    match t {
        PacketType::Query => 0,
        PacketType::Response => 1,
    }
}

/// A flag as the single bit it is packed into.
pub open spec fn flag_bit(b: bool) -> u8 {
    if b {
        1
    } else {
        0
    }
}

impl Header {
    /// The operation code fits its 4-bit wire field.  Parsed headers always
    /// satisfy this; only a hand-built `Reserved` code can break it.
    pub open spec fn wf(self) -> bool {
        operation_code_num(self.operation_code) <= 15
    }

    /// The third wire byte: QR, the operation code, AA, TC and RD.
    pub open spec fn flags_hi(self) -> u8 {
        (128 * (packet_type_bit(self.typ) as int) + 8 * (operation_code_num(self.operation_code)
            as int) + 4 * (flag_bit(self.authoritative_answer) as int) + 2 * (flag_bit(
            self.truncated_message,
        ) as int) + (flag_bit(self.recursion_desired) as int)) as u8
    }

    /// The fourth wire byte: RA, the zero Z bits and the response code.
    pub open spec fn flags_lo(self) -> u8 {
        (128 * (flag_bit(self.recursion_available) as int) + (response_code(self.response)
            as int)) as u8
    }

    /// The twelve bytes this header encodes to.
    pub open spec fn enc(self) -> Seq<u8> {
        seq![
            (self.id / 256) as u8,
            (self.id % 256) as u8,
            self.flags_hi(),
            self.flags_lo(),
            (self.question_count / 256) as u8,
            (self.question_count % 256) as u8,
            (self.answer_count / 256) as u8,
            (self.answer_count % 256) as u8,
            (self.authority_count / 256) as u8,
            (self.authority_count % 256) as u8,
            (self.addtional_count / 256) as u8,
            (self.addtional_count % 256) as u8,
        ]
    }
}

/// What decoding a buffer as a header returns: the field extraction and the
/// error policy, byte for byte.  Reserved operation codes, non-zero Z bits
/// and reserved response codes are hard errors, checked in wire order.
pub open spec fn spec_parse_header(b: Seq<u8>) -> Result<Header, HeaderParseError> {
    if b.len() != 12 {
        Err(HeaderParseError::SliceSizeMismatch(b.len() as usize))
    } else {
        let op = ((b[2] / 8) % 16) as u8;
        let z = ((b[3] / 16) % 8) as u8;
        let rcode = (b[3] % 16) as u8;
        if op > 2 {
            Err(HeaderParseError::ReservedOperationCode(op))
        } else if z != 0 {
            Err(HeaderParseError::ReservedZFlag(z))
        } else if rcode > 5 {
            Err(HeaderParseError::ReservedResponseCode(rcode))
        } else {
            Ok(
                Header {
                    id: u16_of(b[0], b[1]),
                    typ: if b[2] / 128 == 1 {
                        PacketType::Response
                    } else {
                        PacketType::Query
                    },
                    operation_code: operation_code_of(op),
                    authoritative_answer: (b[2] / 4) % 2 == 1,
                    truncated_message: (b[2] / 2) % 2 == 1,
                    recursion_desired: b[2] % 2 == 1,
                    recursion_available: b[3] / 128 == 1,
                    response: response_of(rcode),
                    question_count: u16_of(b[4], b[5]),
                    answer_count: u16_of(b[6], b[7]),
                    authority_count: u16_of(b[8], b[9]),
                    addtional_count: u16_of(b[10], b[11]),
                },
            )
        }
    }
}

impl Header {
    /// Parses the fixed 12-byte header.  Exactly twelve bytes are accepted;
    /// reserved operation codes, non-zero Z bits and reserved response codes
    /// are rejected rather than coerced.
    pub fn decode(value: &[u8]) -> (r: Result<Header, HeaderParseError>)
        ensures
            r == spec_parse_header(value@),
    {
        if value.len() != 12 {
            return Err(HeaderParseError::SliceSizeMismatch(value.len()));
        }
        let op: u8 = (value[2] / 8) % 16;
        let z: u8 = (value[3] / 16) % 8;
        let rcode: u8 = value[3] % 16;
        if op > 2 {
            return Err(HeaderParseError::ReservedOperationCode(op));
        }
        if z != 0 {
            return Err(HeaderParseError::ReservedZFlag(z));
        }
        if rcode > 5 {
            return Err(HeaderParseError::ReservedResponseCode(rcode));
        }
        let operation_code = if op == 0 {
            OperationCode::StandardQuery
        } else if op == 1 {
            OperationCode::InverseQuery
        } else {
            OperationCode::StatusRequest
        };
        let response = if rcode == 0 {
            Ok(())
        } else if rcode == 1 {
            Err(HeaderError::Format)
        } else if rcode == 2 {
            Err(HeaderError::ServerFailure)
        } else if rcode == 3 {
            Err(HeaderError::Name)
        } else if rcode == 4 {
            Err(HeaderError::NotImplemented)
        } else {
            Err(HeaderError::Resfused)
        };
        Ok(
            Header {
                id: be_u16(value[0], value[1]),
                typ: if value[2] / 128 == 1 {
                    PacketType::Response
                } else {
                    PacketType::Query
                },
                operation_code,
                authoritative_answer: (value[2] / 4) % 2 == 1,
                truncated_message: (value[2] / 2) % 2 == 1,
                recursion_desired: value[2] % 2 == 1,
                recursion_available: value[3] / 128 == 1,
                response,
                question_count: be_u16(value[4], value[5]),
                answer_count: be_u16(value[6], value[7]),
                authority_count: be_u16(value[8], value[9]),
                addtional_count: be_u16(value[10], value[11]),
            },
        )
    }

    /// Writes the twelve header bytes.  The counts are written as stored;
    /// keeping them in step with the section lists is the message's job.
    pub fn encode(&self) -> (r: Vec<u8>)
        requires
            self.wf(),
        ensures
            r@ == self.enc(),
            r@.len() == 12,
    {
        let mut out: Vec<u8> = Vec::new();
        push_u16(&mut out, self.id);
        let qr: u8 = match self.typ {
            PacketType::Query => 0,
            PacketType::Response => 1,
        };
        let op: u8 = match self.operation_code {
            OperationCode::StandardQuery => 0,
            OperationCode::InverseQuery => 1,
            OperationCode::StatusRequest => 2,
            OperationCode::Reserved(code) => code as u8,
        };
        let aa: u8 = if self.authoritative_answer {
            1
        } else {
            0
        };
        let tc: u8 = if self.truncated_message {
            1
        } else {
            0
        };
        let rd: u8 = if self.recursion_desired {
            1
        } else {
            0
        };
        let ra: u8 = if self.recursion_available {
            1
        } else {
            0
        };
        let rcode: u8 = match self.response {
            Ok(()) => 0,
            Err(HeaderError::Format) => 1,
            Err(HeaderError::ServerFailure) => 2,
            Err(HeaderError::Name) => 3,
            Err(HeaderError::NotImplemented) => 4,
            Err(HeaderError::Resfused) => 5,
        };
        out.push(128 * qr + 8 * op + 4 * aa + 2 * tc + rd);
        out.push(128 * ra + rcode);
        push_u16(&mut out, self.question_count);
        push_u16(&mut out, self.answer_count);
        push_u16(&mut out, self.authority_count);
        push_u16(&mut out, self.addtional_count);
        assert(out@ =~= self.enc());
        out
    }
}

/// Unpacking the packed high flag byte recovers every field.
proof fn lemma_unpack_flags_hi(q: int, o: int, a: int, t: int, r: int)
    by (nonlinear_arith)
    requires
        0 <= q < 2,
        0 <= o < 16,
        0 <= a < 2,
        0 <= t < 2,
        0 <= r < 2,
    ensures
        0 <= 128 * q + 8 * o + 4 * a + 2 * t + r <= 255,
        (128 * q + 8 * o + 4 * a + 2 * t + r) / 128 == q,
        ((128 * q + 8 * o + 4 * a + 2 * t + r) / 8) % 16 == o,
        ((128 * q + 8 * o + 4 * a + 2 * t + r) / 4) % 2 == a,
        ((128 * q + 8 * o + 4 * a + 2 * t + r) / 2) % 2 == t,
        (128 * q + 8 * o + 4 * a + 2 * t + r) % 2 == r,
{
}

/// Unpacking the packed low flag byte recovers RA, the zero Z bits and the
/// response code.
proof fn lemma_unpack_flags_lo(r: int, c: int)
    by (nonlinear_arith)
    requires
        0 <= r < 2,
        0 <= c < 16,
    ensures
        0 <= 128 * r + c <= 255,
        (128 * r + c) / 128 == r,
        ((128 * r + c) / 16) % 8 == 8 * r % 8 + c / 16,
        (128 * r + c) % 16 == c,
        8 * r % 8 == 0,
        c / 16 == 0,
{
}

/// A status comes back unchanged from its 4-bit response code.
proof fn lemma_response_round_trip(r: Result<(), HeaderError>)
    ensures
        response_of(response_code(r)) == r,
{
    match r {
        Ok(u) => {
            assert(u =~= ());
            assert(r == Ok::<(), HeaderError>(()));
            assert(response_of(0) == Ok::<(), HeaderError>(()));
        },
        Err(e) => {
            match e {
                HeaderError::Format => {
                    assert(response_of(1) == Err::<(), HeaderError>(HeaderError::Format));
                },
                HeaderError::ServerFailure => {
                    assert(response_of(2) == Err::<(), HeaderError>(HeaderError::ServerFailure));
                },
                HeaderError::Name => {
                    assert(response_of(3) == Err::<(), HeaderError>(HeaderError::Name));
                },
                HeaderError::NotImplemented => {
                    assert(response_of(4) == Err::<(), HeaderError>(HeaderError::NotImplemented));
                },
                HeaderError::Resfused => {
                    assert(response_of(5) == Err::<(), HeaderError>(HeaderError::Resfused));
                },
            }
        },
    }
}

/// The value an optional builder field holds, or the default it falls back
/// to.
pub open spec fn opt_or<T>(o: Option<T>, d: T) -> T {
    match o {
        Some(v) => v,
        None => d,
    }
}

/// Collects header fields one at a time; `build` fills the rest with
/// defaults.
#[derive(Debug, Clone)]
pub struct HeaderBuilder {
    pub id: Option<u16>,
    pub typ: Option<PacketType>,
    pub operation_code: Option<OperationCode>,
    pub authoritative_answer: Option<bool>,
    pub truncated_message: Option<bool>,
    pub recursion_desired: Option<bool>,
    pub recursion_available: Option<bool>,
    pub response: Option<HeaderError>,
    pub question_count: Option<u16>,
    pub answer_count: Option<u16>,
    pub authority_count: Option<u16>,
    pub additional_count: Option<u16>,
}

impl HeaderBuilder {
    /// A builder with no field chosen yet.
    pub fn new() -> (r: Self)
        ensures
            r == (HeaderBuilder {
                id: None,
                typ: None,
                operation_code: None,
                authoritative_answer: None,
                truncated_message: None,
                recursion_desired: None,
                recursion_available: None,
                response: None,
                question_count: None,
                answer_count: None,
                authority_count: None,
                additional_count: None,
            }),
    {
        HeaderBuilder {
            id: None,
            typ: None,
            operation_code: None,
            authoritative_answer: None,
            truncated_message: None,
            recursion_desired: None,
            recursion_available: None,
            response: None,
            question_count: None,
            answer_count: None,
            authority_count: None,
            additional_count: None,
        }
    }

    /// Chooses the id.
    pub fn id(self, id: u16) -> (r: Self)
        ensures
            r == (HeaderBuilder { id: Some(id), ..self }),
    {
        HeaderBuilder { id: Some(id), ..self }
    }

    /// Chooses the packet type.
    pub fn typ(self, typ: PacketType) -> (r: Self)
        ensures
            r == (HeaderBuilder { typ: Some(typ), ..self }),
    {
        HeaderBuilder { typ: Some(typ), ..self }
    }

    /// Chooses the operation code.
    pub fn operation_code(self, operation_code: OperationCode) -> (r: Self)
        ensures
            r == (HeaderBuilder { operation_code: Some(operation_code), ..self }),
    {
        HeaderBuilder { operation_code: Some(operation_code), ..self }
    }

    /// Chooses the authoritative-answer flag.
    pub fn authoritative_answer(self, authoritative_answer: bool) -> (r: Self)
        ensures
            r == (HeaderBuilder { authoritative_answer: Some(authoritative_answer), ..self }),
    {
        HeaderBuilder { authoritative_answer: Some(authoritative_answer), ..self }
    }

    /// Chooses the truncated-message flag.
    pub fn truncated_message(self, truncated_message: bool) -> (r: Self)
        ensures
            r == (HeaderBuilder { truncated_message: Some(truncated_message), ..self }),
    {
        HeaderBuilder { truncated_message: Some(truncated_message), ..self }
    }

    /// Chooses the recursion-desired flag.
    pub fn recursion_desired(self, recursion_desired: bool) -> (r: Self)
        ensures
            r == (HeaderBuilder { recursion_desired: Some(recursion_desired), ..self }),
    {
        HeaderBuilder { recursion_desired: Some(recursion_desired), ..self }
    }

    /// Chooses the recursion-available flag.
    pub fn recursion_available(self, recursion_available: bool) -> (r: Self)
        ensures
            r == (HeaderBuilder { recursion_available: Some(recursion_available), ..self }),
    {
        HeaderBuilder { recursion_available: Some(recursion_available), ..self }
    }

    /// Chooses the response status: `None` stands for ok, `Some` for one of
    /// the defined error codes.
    pub fn response(self, response: Option<HeaderError>) -> (r: Self)
        ensures
            r == (HeaderBuilder { response, ..self }),
    {
        HeaderBuilder { response, ..self }
    }

    /// Chooses the question count.
    pub fn question_count(self, question_count: u16) -> (r: Self)
        ensures
            r == (HeaderBuilder { question_count: Some(question_count), ..self }),
    {
        HeaderBuilder { question_count: Some(question_count), ..self }
    }

    /// Chooses the answer count.
    pub fn answer_count(self, answer_count: u16) -> (r: Self)
        ensures
            r == (HeaderBuilder { answer_count: Some(answer_count), ..self }),
    {
        HeaderBuilder { answer_count: Some(answer_count), ..self }
    }

    /// Chooses the authority count.
    pub fn authority_count(self, authority_count: u16) -> (r: Self)
        ensures
            r == (HeaderBuilder { authority_count: Some(authority_count), ..self }),
    {
        HeaderBuilder { authority_count: Some(authority_count), ..self }
    }

    /// Chooses the additional count.
    pub fn additional_count(self, additional_count: u16) -> (r: Self)
        ensures
            r == (HeaderBuilder { additional_count: Some(additional_count), ..self }),
    {
        HeaderBuilder { additional_count: Some(additional_count), ..self }
    }

    /// The header with every chosen field in place and defaults for the
    /// rest: id 1234, a standard-query response with all flags clear, ok
    /// status and zero counts.
    pub fn build(self) -> (r: Header)
        ensures
            r.id == opt_or(self.id, 1234u16),
            r.typ == opt_or(self.typ, PacketType::Response),
            r.operation_code == opt_or(self.operation_code, OperationCode::StandardQuery),
            r.authoritative_answer == opt_or(self.authoritative_answer, false),
            r.truncated_message == opt_or(self.truncated_message, false),
            r.recursion_desired == opt_or(self.recursion_desired, false),
            r.recursion_available == opt_or(self.recursion_available, false),
            r.response == (match self.response {
                Some(err) => Err::<(), HeaderError>(err),
                None => Ok::<(), HeaderError>(()),
            }),
            r.question_count == opt_or(self.question_count, 0u16),
            r.answer_count == opt_or(self.answer_count, 0u16),
            r.authority_count == opt_or(self.authority_count, 0u16),
            r.addtional_count == opt_or(self.additional_count, 0u16),
    {
        Header {
            id: match self.id {
                Some(v) => v,
                None => 1234,
            },
            typ: match self.typ {
                Some(v) => v,
                None => PacketType::Response,
            },
            operation_code: match self.operation_code {
                Some(v) => v,
                None => OperationCode::StandardQuery,
            },
            authoritative_answer: match self.authoritative_answer {
                Some(v) => v,
                None => false,
            },
            truncated_message: match self.truncated_message {
                Some(v) => v,
                None => false,
            },
            recursion_desired: match self.recursion_desired {
                Some(v) => v,
                None => false,
            },
            recursion_available: match self.recursion_available {
                Some(v) => v,
                None => false,
            },
            response: match self.response {
                Some(err) => Err(err),
                None => Ok(()),
            },
            question_count: match self.question_count {
                Some(v) => v,
                None => 0,
            },
            answer_count: match self.answer_count {
                Some(v) => v,
                None => 0,
            },
            authority_count: match self.authority_count {
                Some(v) => v,
                None => 0,
            },
            addtional_count: match self.additional_count {
                Some(v) => v,
                None => 0,
            },
        }
    }
}

impl Default for Header {
    /// The header `build` makes when nothing was chosen.
    fn default() -> (r: Header)
        ensures
            r == (Header {
                id: 1234,
                typ: PacketType::Response,
                operation_code: OperationCode::StandardQuery,
                authoritative_answer: false,
                truncated_message: false,
                recursion_desired: false,
                recursion_available: false,
                response: Ok(()),
                question_count: 0,
                answer_count: 0,
                authority_count: 0,
                addtional_count: 0,
            }),
    {
        HeaderBuilder::new().build()
    }
}

/// A buffer carrying a reserved operation code (3 to 15) or a reserved
/// response code (6 to 15) never parses, whatever the other bits say.
pub proof fn lemma_header_reserved_codes(b: Seq<u8>)
    requires
        b.len() == 12,
    ensures
        (b[2] / 8) % 16 > 2 || b[3] % 16 > 5 ==> spec_parse_header(b) is Err,
{
}

/// Header round trip: parsing the bytes a header writes yields that header
/// again, for every field combination whose operation code is one of the
/// three defined ones.  A `Reserved` operation code encodes, but the bytes
/// are then rejected on parse, as `spec_parse_header` states.
pub proof fn lemma_header_round_trip(h: Header)
    requires
        !(h.operation_code is Reserved),
    ensures
        spec_parse_header(h.enc()) == Ok::<Header, HeaderParseError>(h),
{
    let b = h.enc();
    let q = packet_type_bit(h.typ) as int;
    let o = operation_code_num(h.operation_code) as int;
    let a = flag_bit(h.authoritative_answer) as int;
    let t = flag_bit(h.truncated_message) as int;
    let r = flag_bit(h.recursion_desired) as int;
    let ra = flag_bit(h.recursion_available) as int;
    let c = response_code(h.response) as int;
    lemma_unpack_flags_hi(q, o, a, t, r);
    lemma_unpack_flags_lo(ra, c);
    assert(b[2] == 128 * q + 8 * o + 4 * a + 2 * t + r);
    assert(b[3] == 128 * ra + c);
    lemma_u16_of_bytes(h.id);
    lemma_u16_of_bytes(h.question_count);
    lemma_u16_of_bytes(h.answer_count);
    lemma_u16_of_bytes(h.authority_count);
    lemma_u16_of_bytes(h.addtional_count);
    let parsed = spec_parse_header(b);
    assert(parsed is Ok);
    let h2 = parsed->Ok_0;
    assert(h2.operation_code == h.operation_code);
    assert(0 <= c <= 5);
    assert((b[3] % 16) == c);
    assert((b[3] % 16) as u8 == response_code(h.response));
    lemma_response_round_trip(h.response);
    assert(h2.response == h.response);
    assert(h2 == h);
}

} // verus!
