//! The question section entries: what is being asked.
//!
//! ```txt
//!                                     1  1  1  1  1  1
//!       0  1  2  3  4  5  6  7  8  9  0  1  2  3  4  5
//!     +--+--+--+--+--+--+--+--+--+--+--+--+--+--+--+--+
//!     |                                               |
//!     /                     QNAME                     /
//!     /                                               /
//!     +--+--+--+--+--+--+--+--+--+--+--+--+--+--+--+--+
//!     |                     QTYPE                     |
//!     +--+--+--+--+--+--+--+--+--+--+--+--+--+--+--+--+
//!     |                     QCLASS                    |
//!     +--+--+--+--+--+--+--+--+--+--+--+--+--+--+--+--+
//! ```
use vstd::prelude::*;

use crate::label::{
    enc_result_view, label_enc, label_unambiguous, lemma_label_round_trip, lemma_parse_label_len,
    parse_label, spec_encode_label, spec_parse_label, Label, LabelError, LabelView,
};
use crate::type_class::{
    lemma_type_class_codes, question_class_code, question_class_of, question_type_code,
    question_type_of, QuestionClass, QuestionType, UnregisteredClass, UnregisteredType,
};
use crate::wire::{be_u16, lemma_u16_of_bytes, push_u16, u16_bytes, u16_of};

verus! {

/// One entry of the question section: a name, a query type and a query
/// class.
#[derive(Debug, Clone, PartialEq, Eq)]
pub struct Question {
    /// The domain name being asked about.
    pub name: Label,
    /// What kind of records the question asks for.
    pub typ: QuestionType,
    /// The class of the query.
    pub class: QuestionClass,
}

/// The mathematical shape of a `Question`.
#[verifier::ext_equal]
pub struct QuestionView {
    pub name: LabelView,
    pub typ: QuestionType,
    pub class: QuestionClass,
}

impl View for Question {
    type V = QuestionView;

    open spec fn view(&self) -> QuestionView {
        QuestionView { name: self.name@, typ: self.typ, class: self.class }
    }
}

/// The ways a question can fail to parse.
#[derive(Debug, Clone, Copy, PartialEq, Eq, Structural)]
pub enum QuestionParseError {
    /// The name did not parse.
    Label(LabelError),
    /// The type code is not in the registry.
    InvalidType(UnregisteredType),
    /// The class code is not in the registry.
    InvalidClass(UnregisteredClass),
    /// After the name the buffer holds fewer than two bytes.
    MissingTypeAndClass,
    /// After the name the buffer holds a type but no whole class.
    MissingClass,
}

/// What parsing one question from the front of a buffer returns: the name,
/// then a 16-bit type and a 16-bit class, each looked up in its registry.
pub open spec fn spec_parse_question(b: Seq<u8>) -> Result<(QuestionView, int), QuestionParseError> {
    match spec_parse_label(b) {
        Err(e) => Err(QuestionParseError::Label(e)),
        Ok(t) => {
            let rest = b.skip(t.1);
            if rest.len() < 2 {
                Err(QuestionParseError::MissingTypeAndClass)
            } else if rest.len() < 4 {
                Err(QuestionParseError::MissingClass)
            } else {
                match question_type_of(u16_of(rest[0], rest[1])) {
                    Err(e) => Err(QuestionParseError::InvalidType(e)),
                    Ok(typ) => match question_class_of(u16_of(rest[2], rest[3])) {
                        Err(e) => Err(QuestionParseError::InvalidClass(e)),
                        Ok(class) => Ok((QuestionView { name: t.0, typ, class }, t.1 + 4)),
                    },
                }
            }
        },
    }
}

/// A parse result with the parsed value taken to its view.
pub open spec fn question_result_view(r: Result<(Question, usize), QuestionParseError>) -> Result<
    (QuestionView, int),
    QuestionParseError,
> {
    match r {
        Ok((q, n)) => Ok((q@, n as int)),
        Err(e) => Err(e),
    }
}

/// Parses one question from the front of the buffer: the name, then four
/// bytes of type and class.  Returns the question and how many bytes were
/// consumed.
pub fn parse_question(value: &[u8]) -> (r: Result<(Question, usize), QuestionParseError>)
    ensures
        question_result_view(r) == spec_parse_question(value@),
{
    proof {
        lemma_parse_label_len(value@);
    }
    let (name, offset) = match parse_label(value) {
        Ok(t) => t,
        Err(e) => {
            return Err(QuestionParseError::Label(e));
        },
    };
    let ghost rest = value@.skip(offset as int);
    if value.len() - offset < 2 {
        return Err(QuestionParseError::MissingTypeAndClass);
    }
    if value.len() - offset < 4 {
        return Err(QuestionParseError::MissingClass);
    }
    proof {
        assert(rest[0] == value@[offset as int]);
        assert(rest[1] == value@[offset as int + 1]);
        assert(rest[2] == value@[offset as int + 2]);
        assert(rest[3] == value@[offset as int + 3]);
    }
    let typ = match QuestionType::from_code(be_u16(value[offset], value[offset + 1])) {
        Ok(t) => t,
        Err(e) => {
            return Err(QuestionParseError::InvalidType(e));
        },
    };
    let class = match QuestionClass::from_code(be_u16(value[offset + 2], value[offset + 3])) {
        Ok(c) => c,
        Err(e) => {
            return Err(QuestionParseError::InvalidClass(e));
        },
    };
    Ok((Question { name, typ, class }, offset + 4))
}

/// The bytes a question encodes to: the name, then the type and class
/// codes.
pub open spec fn question_enc(q: QuestionView) -> Seq<u8> {
    label_enc(q.name) + u16_bytes(question_type_code(q.typ)) + u16_bytes(
        question_class_code(q.class),
    )
}

/// What encoding a question returns: its wire bytes, or the error from an
/// oversized name label.
pub open spec fn spec_encode_question(q: QuestionView) -> Result<Seq<u8>, LabelError> {
    match spec_encode_label(q.name) {
        Ok(b) => Ok(
            b + u16_bytes(question_type_code(q.typ)) + u16_bytes(question_class_code(q.class)),
        ),
        Err(e) => Err(e),
    }
}

impl Question {
    /// Writes the question: the name, then the 16-bit type and class codes.
    /// Fails with the first name label longer than 255 bytes.
    pub fn encode(&self) -> (r: Result<Vec<u8>, LabelError>)
        ensures
            enc_result_view(r) == spec_encode_question(self@),
    {
        let mut out = match self.name.encode() {
            Ok(out) => out,
            Err(e) => {
                return Err(e);
            },
        };
        push_u16(&mut out, self.typ.code());
        push_u16(&mut out, self.class.code());
        Ok(out)
    }
}

/// A parsed question consumes at least five bytes and at most the whole
/// buffer.
pub proof fn lemma_parse_question_len(b: Seq<u8>)
    ensures
        spec_parse_question(b) matches Ok(t) ==> 5 <= t.1 <= b.len(),
{
    lemma_parse_label_len(b);
}

/// Question round trip: parsing what a question with an unambiguous name
/// encodes to yields the question again, whatever follows it.
pub proof fn lemma_question_round_trip(q: QuestionView, rest: Seq<u8>)
    requires
        label_unambiguous(q.name),
    ensures
        spec_parse_question(question_enc(q) + rest) == Ok::<(QuestionView, int), QuestionParseError>(
            (q, question_enc(q).len() as int),
        ),
{
    let tc = question_type_code(q.typ);
    let cc = question_class_code(q.class);
    let tail = u16_bytes(tc) + u16_bytes(cc) + rest;
    let b = question_enc(q) + rest;
    assert(b =~= label_enc(q.name) + tail);
    lemma_label_round_trip(q.name, tail);
    let n = label_enc(q.name).len() as int;
    let after = b.skip(n);
    assert(after =~= tail);
    assert(after[0] == u16_bytes(tc)[0] && after[1] == u16_bytes(tc)[1]);
    assert(after[2] == u16_bytes(cc)[0] && after[3] == u16_bytes(cc)[1]);
    lemma_u16_of_bytes(tc);
    lemma_u16_of_bytes(cc);
    lemma_type_class_codes(
        crate::type_class::ResourceType::A,
        q.typ,
        crate::type_class::ResourceClass::IN,
        q.class,
    );
    assert(spec_parse_question(b) matches Ok(t) && t.0 =~= q && t.1 == question_enc(q).len());
}

} // verus!
