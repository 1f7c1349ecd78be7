//! The whole message: a header, the questions, and the answer, authority
//! and additional records.
//!
//! ```txt
//!     +---------------------+
//!     |        Header       |
//!     +---------------------+
//!     |       Question      | the question for the name server
//!     +---------------------+
//!     |        Answer       | records answering the question
//!     +---------------------+
//!     |      Authority      | records pointing toward an authority
//!     +---------------------+
//!     |      Additional     | records holding additional information
//!     +---------------------+
//! ```
//!
//! Decoding reads the header, then exactly as many questions and records as
//! the header counts say, in that order, expanding each entry's compressed
//! name against the whole original buffer, since pointer offsets are
//! absolute.  It is strict: the first error wins and no partial message
//! comes back.  Encoding writes the sections in the same order; pointers
//! are never synthesised, only written where a name was built with one.
use vstd::prelude::*;
use vstd::slice::slice_subrange;
use vstd::string::StringSliceAdditionalSpecFns;

verus! {

use crate::header::{Header, HeaderBuilder, HeaderParseError, OperationCode, PacketType,
    lemma_header_round_trip, spec_parse_header};
use crate::label::{
    expand_label, label_encodable, label_unambiguous, lemma_encode_label_ok,
    lemma_unambiguous_encodable, spec_expand, spec_parse_name_text, Label, LabelError, LabelView,
};
use crate::question::{
    lemma_question_round_trip, parse_question, question_enc, spec_encode_question,
    spec_parse_question, Question, QuestionParseError, QuestionView,
};
use crate::resource::{
    lemma_encode_record_ok, lemma_rdata_wire_valid_encodable, lemma_record_round_trip,
    parse_resource_record, record_enc, record_encodable, record_wire_valid, spec_encode_record,
    spec_parse_resource_record, ResourceRecord, ResourceRecordError, ResourceRecordView,
};
use crate::type_class::{QuestionClass, QuestionType};
use crate::wire::push_bytes;

/// One whole message.
#[derive(Debug, Clone, PartialEq, Eq)]
pub struct Message {
    /// The header; its four counts always name the lengths of the four
    /// lists below when the message is built through this type's methods.
    pub header: Header,
    /// The question section.
    pub questions: Vec<Question>,
    /// The answer section.
    pub answers: Vec<ResourceRecord>,
    /// The authority section.
    pub authorities: Vec<ResourceRecord>,
    /// The additional section.
    pub additionals: Vec<ResourceRecord>,
}

/// The mathematical shape of a `Message`.
#[verifier::ext_equal]
pub struct MessageView {
    pub header: Header,
    pub questions: Seq<QuestionView>,
    pub answers: Seq<ResourceRecordView>,
    pub authorities: Seq<ResourceRecordView>,
    pub additionals: Seq<ResourceRecordView>,
}

/// The views of a question list.
pub open spec fn questions_view(v: Seq<Question>) -> Seq<QuestionView> {
    v.map_values(|q: Question| q@)
}

/// The views of a record list.
pub open spec fn records_view(v: Seq<ResourceRecord>) -> Seq<ResourceRecordView> {
    v.map_values(|r: ResourceRecord| r@)
}

impl View for Message {
    type V = MessageView;

    open spec fn view(&self) -> MessageView {
        MessageView {
            header: self.header,
            questions: questions_view(self.questions@),
            answers: records_view(self.answers@),
            authorities: records_view(self.authorities@),
            additionals: records_view(self.additionals@),
        }
    }
}

impl MessageView {
    /// Each header count names the length of its section: the invariant the
    /// building methods keep.
    pub open spec fn counts_match(self) -> bool {
        &&& self.header.question_count == self.questions.len()
        &&& self.header.answer_count == self.answers.len()
        &&& self.header.authority_count == self.authorities.len()
        &&& self.header.addtional_count == self.additionals.len()
    }
}

/// The ways a whole message can fail to parse or to encode.
#[derive(Debug, Clone, Copy, PartialEq, Eq, Structural)]
pub enum MessageParseError {
    /// Messages are at least 12 bytes.
    ShortBuffer,
    /// The header did not parse.
    Header(HeaderParseError),
    /// A record did not parse or encode.
    Resource(ResourceRecordError),
    /// A question did not parse or encode.
    Question(QuestionParseError),
}

/// What parsing `n` questions starting at an absolute position returns:
/// the questions, each with its name expanded against the whole buffer,
/// and the position after the last one.
pub open spec fn spec_parse_questions(full: Seq<u8>, pos: int, n: nat) -> Result<
    (Seq<QuestionView>, int),
    MessageParseError,
>
    decreases n,
{
    if n == 0 {
        Ok((Seq::empty(), pos))
    } else {
        match spec_parse_question(full.skip(pos)) {
            Err(e) => Err(MessageParseError::Question(e)),
            Ok(t) => match spec_expand(t.0.name, full, pos as nat) {
                Err(e) => Err(MessageParseError::Question(QuestionParseError::Label(e))),
                Ok(nm) => match spec_parse_questions(full, pos + t.1, (n - 1) as nat) {
                    Err(e) => Err(e),
                    Ok(rest) => Ok(
                        (
                            seq![QuestionView { name: nm, typ: t.0.typ, class: t.0.class }]
                                + rest.0,
                            rest.1,
                        ),
                    ),
                },
            },
        }
    }
}

/// What parsing `n` records starting at an absolute position returns: the
/// records, each with its owner name expanded against the whole buffer,
/// and the position after the last one.
pub open spec fn spec_parse_records(full: Seq<u8>, pos: int, n: nat) -> Result<
    (Seq<ResourceRecordView>, int),
    MessageParseError,
>
    decreases n,
{
    if n == 0 {
        Ok((Seq::empty(), pos))
    } else {
        match spec_parse_resource_record(full.skip(pos)) {
            Err(e) => Err(MessageParseError::Resource(e)),
            Ok(t) => match spec_expand(t.0.name, full, pos as nat) {
                Err(e) => Err(MessageParseError::Resource(ResourceRecordError::Label(e))),
                Ok(nm) => match spec_parse_records(full, pos + t.1, (n - 1) as nat) {
                    Err(e) => Err(e),
                    Ok(rest) => Ok(
                        (
                            seq![
                                ResourceRecordView {
                                    name: nm,
                                    class: t.0.class,
                                    time_to_live: t.0.time_to_live,
                                    data: t.0.data,
                                }
                            ] + rest.0,
                            rest.1,
                        ),
                    ),
                },
            },
        }
    }
}

/// What decoding a whole buffer returns: at least twelve bytes, the
/// header, then exactly the counted questions and records in order.  Bytes
/// after the last counted record are ignored.
pub open spec fn spec_parse_message(b: Seq<u8>) -> Result<MessageView, MessageParseError> {
    if b.len() < 12 {
        Err(MessageParseError::ShortBuffer)
    } else {
        match spec_parse_header(b.subrange(0, 12)) {
            Err(e) => Err(MessageParseError::Header(e)),
            Ok(h) => match spec_parse_questions(b, 12, h.question_count as nat) {
                Err(e) => Err(e),
                Ok(qs) => match spec_parse_records(b, qs.1, h.answer_count as nat) {
                    Err(e) => Err(e),
                    Ok(ans) => match spec_parse_records(b, ans.1, h.authority_count as nat) {
                        Err(e) => Err(e),
                        Ok(auth) => match spec_parse_records(
                            b,
                            auth.1,
                            h.addtional_count as nat,
                        ) {
                            Err(e) => Err(e),
                            Ok(add) => Ok(
                                MessageView {
                                    header: h,
                                    questions: qs.0,
                                    answers: ans.0,
                                    authorities: auth.0,
                                    additionals: add.0,
                                },
                            ),
                        },
                    },
                },
            },
        }
    }
}

/// A parse result with the parsed value taken to its view.
pub open spec fn message_result_view(r: Result<Message, MessageParseError>) -> Result<
    MessageView,
    MessageParseError,
> {
    match r {
        Ok(m) => Ok(m@),
        Err(e) => Err(e),
    }
}

/// Decodes the counted questions starting at an absolute position.
fn decode_questions(full: &[u8], pos: usize, count: u16) -> (r: Result<
    (Vec<Question>, usize),
    MessageParseError,
>)
    requires
        pos <= full@.len(),
    ensures
        (match r {
            Ok(t) => spec_parse_questions(full@, pos as int, count as nat) == Ok::<
                (Seq<QuestionView>, int),
                MessageParseError,
            >((questions_view(t.0@), t.1 as int)) && t.1 <= full@.len(),
            Err(e) => spec_parse_questions(full@, pos as int, count as nat) == Err::<
                (Seq<QuestionView>, int),
                MessageParseError,
            >(e),
        }),
{
    let mut questions: Vec<Question> = Vec::new();
    let mut p: usize = pos;
    let mut k: u16 = 0;
    proof {
        assert(questions_view(questions@) =~= Seq::<QuestionView>::empty());
        match spec_parse_questions(full@, pos as int, count as nat) {
            Ok(t) => {
                assert(Seq::<QuestionView>::empty() + t.0 =~= t.0);
            },
            Err(_) => {},
        }
    }
    while k < count
        invariant
            p <= full@.len(),
            k <= count,
            (match spec_parse_questions(full@, p as int, (count - k) as nat) {
                Ok(t) => spec_parse_questions(full@, pos as int, count as nat) == Ok::<
                    (Seq<QuestionView>, int),
                    MessageParseError,
                >((questions_view(questions@) + t.0, t.1)),
                Err(e) => spec_parse_questions(full@, pos as int, count as nat) == Err::<
                    (Seq<QuestionView>, int),
                    MessageParseError,
                >(e),
            }),
        decreases count - k,
    {
        let tail = slice_subrange(full, p, full.len());
        proof {
            assert(tail@ =~= full@.skip(p as int));
            crate::question::lemma_parse_question_len(tail@);
        }
        let (q, n) = match parse_question(tail) {
            Ok(t) => t,
            Err(e) => {
                return Err(MessageParseError::Question(e));
            },
        };
        let name = match expand_label(q.name, full, p) {
            Ok(l) => l,
            Err(e) => {
                return Err(MessageParseError::Question(QuestionParseError::Label(e)));
            },
        };
        let ghost old_questions = questions@;
        let expanded = Question { name, typ: q.typ, class: q.class };
        questions.push(expanded);
        proof {
            assert(questions_view(questions@) =~= questions_view(old_questions).push(expanded@));
            match spec_parse_questions(full@, p + n, (count - k - 1) as nat) {
                Ok(t) => {
                    assert(questions_view(old_questions) + (seq![expanded@] + t.0)
                        =~= questions_view(questions@) + t.0);
                },
                Err(_) => {},
            }
        }
        p = p + n;
        k = k + 1;
    }
    proof {
        assert(questions_view(questions@) + Seq::<QuestionView>::empty() =~= questions_view(
            questions@,
        ));
    }
    Ok((questions, p))
}

/// Decodes the counted records starting at an absolute position.
fn decode_records(full: &[u8], pos: usize, count: u16) -> (r: Result<
    (Vec<ResourceRecord>, usize),
    MessageParseError,
>)
    requires
        pos <= full@.len(),
    ensures
        (match r {
            Ok(t) => spec_parse_records(full@, pos as int, count as nat) == Ok::<
                (Seq<ResourceRecordView>, int),
                MessageParseError,
            >((records_view(t.0@), t.1 as int)) && t.1 <= full@.len(),
            Err(e) => spec_parse_records(full@, pos as int, count as nat) == Err::<
                (Seq<ResourceRecordView>, int),
                MessageParseError,
            >(e),
        }),
{
    let mut records: Vec<ResourceRecord> = Vec::new();
    let mut p: usize = pos;
    let mut k: u16 = 0;
    proof {
        assert(records_view(records@) =~= Seq::<ResourceRecordView>::empty());
        match spec_parse_records(full@, pos as int, count as nat) {
            Ok(t) => {
                assert(Seq::<ResourceRecordView>::empty() + t.0 =~= t.0);
            },
            Err(_) => {},
        }
    }
    while k < count
        invariant
            p <= full@.len(),
            k <= count,
            (match spec_parse_records(full@, p as int, (count - k) as nat) {
                Ok(t) => spec_parse_records(full@, pos as int, count as nat) == Ok::<
                    (Seq<ResourceRecordView>, int),
                    MessageParseError,
                >((records_view(records@) + t.0, t.1)),
                Err(e) => spec_parse_records(full@, pos as int, count as nat) == Err::<
                    (Seq<ResourceRecordView>, int),
                    MessageParseError,
                >(e),
            }),
        decreases count - k,
    {
        let tail = slice_subrange(full, p, full.len());
        proof {
            assert(tail@ =~= full@.skip(p as int));
            crate::resource::lemma_parse_record_len(tail@);
        }
        let (rec, n) = match parse_resource_record(tail) {
            Ok(t) => t,
            Err(e) => {
                return Err(MessageParseError::Resource(e));
            },
        };
        let name = match expand_label(rec.name, full, p) {
            Ok(l) => l,
            Err(e) => {
                return Err(MessageParseError::Resource(ResourceRecordError::Label(e)));
            },
        };
        let ghost old_records = records@;
        let expanded = ResourceRecord {
            name,
            class: rec.class,
            time_to_live: rec.time_to_live,
            data: rec.data,
        };
        records.push(expanded);
        proof {
            assert(records_view(records@) =~= records_view(old_records).push(expanded@));
            match spec_parse_records(full@, p + n, (count - k - 1) as nat) {
                Ok(t) => {
                    assert(records_view(old_records) + (seq![expanded@] + t.0) =~= records_view(
                        records@,
                    ) + t.0);
                },
                Err(_) => {},
            }
        }
        p = p + n;
        k = k + 1;
    }
    proof {
        assert(records_view(records@) + Seq::<ResourceRecordView>::empty() =~= records_view(
            records@,
        ));
    }
    Ok((records, p))
}

impl Message {
    /// Decodes a whole message: the 12-byte header, then exactly the
    /// counted questions, answers, authorities and additionals in order,
    /// expanding every compressed entry name against the whole buffer.
    /// The first error wins; no partial message comes back.
    pub fn decode(value: &[u8]) -> (r: Result<Message, MessageParseError>)
        ensures
            message_result_view(r) == spec_parse_message(value@),
    {
        if value.len() < 12 {
            return Err(MessageParseError::ShortBuffer);
        }
        let head = slice_subrange(value, 0, 12);
        proof {
            assert(head@ =~= value@.subrange(0, 12));
        }
        let header = match Header::decode(head) {
            Ok(h) => h,
            Err(e) => {
                return Err(MessageParseError::Header(e));
            },
        };
        let (questions, p1) = match decode_questions(value, 12, header.question_count) {
            Ok(t) => t,
            Err(e) => {
                return Err(e);
            },
        };
        let (answers, p2) = match decode_records(value, p1, header.answer_count) {
            Ok(t) => t,
            Err(e) => {
                return Err(e);
            },
        };
        let (authorities, p3) = match decode_records(value, p2, header.authority_count) {
            Ok(t) => t,
            Err(e) => {
                return Err(e);
            },
        };
        let (additionals, _p4) = match decode_records(value, p3, header.addtional_count) {
            Ok(t) => t,
            Err(e) => {
                return Err(e);
            },
        };
        Ok(Message { header, questions, answers, authorities, additionals })
    }
}

/// The bytes a question list encodes to, in order.
pub open spec fn questions_enc(qs: Seq<QuestionView>) -> Seq<u8>
    decreases qs.len(),
{
    if qs.len() == 0 {
        Seq::empty()
    } else {
        question_enc(qs[0]) + questions_enc(qs.drop_first())
    }
}

/// The bytes a record list encodes to, in order.
pub open spec fn records_enc(rs: Seq<ResourceRecordView>) -> Seq<u8>
    decreases rs.len(),
{
    if rs.len() == 0 {
        Seq::empty()
    } else {
        record_enc(rs[0]) + records_enc(rs.drop_first())
    }
}

/// The bytes a whole message encodes to: the header, then the four
/// sections in order.
pub open spec fn message_enc(m: MessageView) -> Seq<u8> {
    m.header.enc() + questions_enc(m.questions) + records_enc(m.answers) + records_enc(
        m.authorities,
    ) + records_enc(m.additionals)
}

/// What encoding a question list returns: its bytes, or the first error.
pub open spec fn spec_encode_questions(qs: Seq<QuestionView>) -> Result<Seq<u8>, MessageParseError>
    decreases qs.len(),
{
    if qs.len() == 0 {
        Ok(Seq::empty())
    } else {
        match spec_encode_question(qs[0]) {
            Err(e) => Err(MessageParseError::Question(QuestionParseError::Label(e))),
            Ok(h) => match spec_encode_questions(qs.drop_first()) {
                Ok(t) => Ok(h + t),
                Err(e) => Err(e),
            },
        }
    }
}

/// What encoding a record list returns: its bytes, or the first error.
pub open spec fn spec_encode_records(rs: Seq<ResourceRecordView>) -> Result<
    Seq<u8>,
    MessageParseError,
>
    decreases rs.len(),
{
    if rs.len() == 0 {
        Ok(Seq::empty())
    } else {
        match spec_encode_record(rs[0]) {
            Err(e) => Err(MessageParseError::Resource(e)),
            Ok(h) => match spec_encode_records(rs.drop_first()) {
                Ok(t) => Ok(h + t),
                Err(e) => Err(e),
            },
        }
    }
}

/// What encoding a whole message returns: the header bytes and the four
/// sections in order, or the first error from any entry.
pub open spec fn spec_encode_message(m: MessageView) -> Result<Seq<u8>, MessageParseError> {
    match spec_encode_questions(m.questions) {
        Err(e) => Err(e),
        Ok(qb) => match spec_encode_records(m.answers) {
            Err(e) => Err(e),
            Ok(ab) => match spec_encode_records(m.authorities) {
                Err(e) => Err(e),
                Ok(ub) => match spec_encode_records(m.additionals) {
                    Err(e) => Err(e),
                    Ok(db) => Ok(m.header.enc() + qb + ab + ub + db),
                },
            },
        },
    }
}

/// An encode result with the produced buffer taken to its view.
pub open spec fn message_enc_result_view(r: Result<Vec<u8>, MessageParseError>) -> Result<
    Seq<u8>,
    MessageParseError,
> {
    match r {
        Ok(v) => Ok(v@),
        Err(e) => Err(e),
    }
}

/// Writes a question list in order.
fn encode_questions(v: &Vec<Question>) -> (r: Result<Vec<u8>, MessageParseError>)
    ensures
        message_enc_result_view(r) == spec_encode_questions(questions_view(v@)),
{
    let ghost qv = questions_view(v@);
    let mut out: Vec<u8> = Vec::new();
    let mut i: usize = 0;
    proof {
        assert(qv.skip(0) =~= qv);
    }
    while i < v.len()
        invariant
            i <= v@.len(),
            qv == questions_view(v@),
            (match spec_encode_questions(qv.skip(i as int)) {
                Ok(t) => spec_encode_questions(qv) == Ok::<Seq<u8>, MessageParseError>(out@ + t),
                Err(e) => spec_encode_questions(qv) == Err::<Seq<u8>, MessageParseError>(e),
            }),
        decreases v@.len() - i,
    {
        proof {
            assert(qv.skip(i as int)[0] == qv[i as int]);
            assert(qv.skip(i as int).drop_first() =~= qv.skip(i as int + 1));
        }
        let qb = match v[i].encode() {
            Ok(b) => b,
            Err(e) => {
                return Err(MessageParseError::Question(QuestionParseError::Label(e)));
            },
        };
        let ghost before = out@;
        push_bytes(&mut out, qb.as_slice());
        proof {
            match spec_encode_questions(qv.skip(i as int + 1)) {
                Ok(t) => {
                    assert(before + (qb@ + t) =~= out@ + t);
                },
                Err(_) => {},
            }
        }
        i = i + 1;
    }
    proof {
        assert(qv.skip(v@.len() as int) =~= Seq::<QuestionView>::empty());
        assert(out@ + Seq::<u8>::empty() =~= out@);
    }
    Ok(out)
}

/// Writes a record list in order.
fn encode_records(v: &Vec<ResourceRecord>) -> (r: Result<Vec<u8>, MessageParseError>)
    ensures
        message_enc_result_view(r) == spec_encode_records(records_view(v@)),
{
    let ghost rv = records_view(v@);
    let mut out: Vec<u8> = Vec::new();
    let mut i: usize = 0;
    proof {
        assert(rv.skip(0) =~= rv);
    }
    while i < v.len()
        invariant
            i <= v@.len(),
            rv == records_view(v@),
            (match spec_encode_records(rv.skip(i as int)) {
                Ok(t) => spec_encode_records(rv) == Ok::<Seq<u8>, MessageParseError>(out@ + t),
                Err(e) => spec_encode_records(rv) == Err::<Seq<u8>, MessageParseError>(e),
            }),
        decreases v@.len() - i,
    {
        proof {
            assert(rv.skip(i as int)[0] == rv[i as int]);
            assert(rv.skip(i as int).drop_first() =~= rv.skip(i as int + 1));
        }
        let rb = match v[i].encode() {
            Ok(b) => b,
            Err(e) => {
                return Err(MessageParseError::Resource(e));
            },
        };
        let ghost before = out@;
        push_bytes(&mut out, rb.as_slice());
        proof {
            match spec_encode_records(rv.skip(i as int + 1)) {
                Ok(t) => {
                    assert(before + (rb@ + t) =~= out@ + t);
                },
                Err(_) => {},
            }
        }
        i = i + 1;
    }
    proof {
        assert(rv.skip(v@.len() as int) =~= Seq::<ResourceRecordView>::empty());
        assert(out@ + Seq::<u8>::empty() =~= out@);
    }
    Ok(out)
}

impl Message {
    /// Writes the whole message: the header bytes, then every question,
    /// answer, authority and additional entry, each freshly serialised in
    /// that fixed order.  Compression is never synthesised; a pointer is
    /// written only where a name was built with one.  Fails with the first
    /// entry that cannot be written.
    pub fn encode(&self) -> (r: Result<Vec<u8>, MessageParseError>)
        requires
            self.header.wf(),
        ensures
            message_enc_result_view(r) == spec_encode_message(self@),
    {
        let qb = match encode_questions(&self.questions) {
            Ok(b) => b,
            Err(e) => {
                return Err(e);
            },
        };
        let ab = match encode_records(&self.answers) {
            Ok(b) => b,
            Err(e) => {
                return Err(e);
            },
        };
        let ub = match encode_records(&self.authorities) {
            Ok(b) => b,
            Err(e) => {
                return Err(e);
            },
        };
        let db = match encode_records(&self.additionals) {
            Ok(b) => b,
            Err(e) => {
                return Err(e);
            },
        };
        let mut out = self.header.encode();
        push_bytes(&mut out, qb.as_slice());
        push_bytes(&mut out, ab.as_slice());
        push_bytes(&mut out, ub.as_slice());
        push_bytes(&mut out, db.as_slice());
        proof {
            assert(spec_encode_message(self@) is Ok);
            assert(out@ =~= spec_encode_message(self@)->Ok_0);
        }
        Ok(out)
    }

    /// A fresh message with the given id: a standard-query response header
    /// with all flags clear, ok status, and four empty sections.
    pub fn new(id: u16) -> (r: Message)
        ensures
            r@.header == (Header {
                id,
                typ: PacketType::Response,
                operation_code: OperationCode::StandardQuery,
                authoritative_answer: false,
                truncated_message: false,
                recursion_desired: false,
                recursion_available: false,
                response: Ok(()),
                question_count: 0,
                answer_count: 0,
                authority_count: 0,
                addtional_count: 0,
            }),
            r@.questions == Seq::<QuestionView>::empty(),
            r@.answers == Seq::<ResourceRecordView>::empty(),
            r@.authorities == Seq::<ResourceRecordView>::empty(),
            r@.additionals == Seq::<ResourceRecordView>::empty(),
            r@.counts_match(),
    {
        let m = Message {
            header: HeaderBuilder::new().id(id).build(),
            questions: Vec::new(),
            answers: Vec::new(),
            authorities: Vec::new(),
            additionals: Vec::new(),
        };
        proof {
            assert(questions_view(m.questions@) =~= Seq::<QuestionView>::empty());
            assert(records_view(m.answers@) =~= Seq::<ResourceRecordView>::empty());
            assert(records_view(m.authorities@) =~= Seq::<ResourceRecordView>::empty());
            assert(records_view(m.additionals@) =~= Seq::<ResourceRecordView>::empty());
        }
        m
    }

    /// Marks the message as a query.
    pub fn query(&mut self)
        ensures
            final(self)@ == (MessageView {
                header: (Header { typ: PacketType::Query, ..old(self).header }),
                ..old(self)@
            }),
    {
        self.header.typ = PacketType::Query;
    }

    /// Marks the message as a response.
    pub fn respond(&mut self)
        ensures
            final(self)@ == (MessageView {
                header: (Header { typ: PacketType::Response, ..old(self).header }),
                ..old(self)@
            }),
    {
        self.header.typ = PacketType::Response;
    }

    /// Adds a question for the dotted domain-name text: the text is split
    /// around `'.'` into literal labels and the question count moves up in
    /// step.  On a bad segment nothing changes and the error names it.
    pub fn ask(&mut self, name: &str, typ: QuestionType, class: QuestionClass) -> (r: Result<
        (),
        LabelError,
    >)
        requires
            old(self).header.question_count < 0xffff,
        ensures
            (match r {
                Ok(_) => spec_parse_name_text(name.spec_bytes()) matches Ok(ss) && final(self)@
                    == (MessageView {
                    header: (Header {
                        question_count: (old(self).header.question_count + 1) as u16,
                        ..old(self).header
                    }),
                    questions: old(self)@.questions.push(
                        QuestionView { name: LabelView::Sequence(ss), typ, class },
                    ),
                    ..old(self)@
                }),
                Err(e) => spec_parse_name_text(name.spec_bytes()) == Err::<
                    Seq<Seq<u8>>,
                    LabelError,
                >(e) && final(self)@ == old(self)@,
            }),
            old(self)@.counts_match() ==> (r is Ok ==> final(self)@.counts_match()),
    {
        let label = match Label::parse_str(name) {
            Ok(l) => l,
            Err(e) => {
                return Err(e);
            },
        };
        self.header.question_count = self.header.question_count + 1;
        let q = Question { name: label, typ, class };
        self.questions.push(q);
        proof {
            assert(questions_view(self.questions@) =~= questions_view(old(self).questions@).push(
                q@,
            ));
        }
        Ok(())
    }

    /// Appends a record to the answer section; the answer count moves up in
    /// step.
    pub fn answer(&mut self, rr: ResourceRecord)
        requires
            old(self).header.answer_count < 0xffff,
        ensures
            final(self)@ == (MessageView {
                header: (Header {
                    answer_count: (old(self).header.answer_count + 1) as u16,
                    ..old(self).header
                }),
                answers: old(self)@.answers.push(rr@),
                ..old(self)@
            }),
            old(self)@.counts_match() ==> final(self)@.counts_match(),
    {
        self.header.answer_count = self.header.answer_count + 1;
        let ghost rv = rr@;
        self.answers.push(rr);
        proof {
            assert(records_view(self.answers@) =~= records_view(old(self).answers@).push(rv));
        }
    }

    /// Appends a record to the authority section; the authority count moves
    /// up in step.
    pub fn authorize(&mut self, rr: ResourceRecord)
        requires
            old(self).header.authority_count < 0xffff,
        ensures
            final(self)@ == (MessageView {
                header: (Header {
                    authority_count: (old(self).header.authority_count + 1) as u16,
                    ..old(self).header
                }),
                authorities: old(self)@.authorities.push(rr@),
                ..old(self)@
            }),
            old(self)@.counts_match() ==> final(self)@.counts_match(),
    {
        self.header.authority_count = self.header.authority_count + 1;
        let ghost rv = rr@;
        self.authorities.push(rr);
        proof {
            assert(records_view(self.authorities@) =~= records_view(old(self).authorities@).push(
                rv,
            ));
        }
    }

    /// Appends a record to the additional section; the additional count
    /// moves up in step.
    pub fn add(&mut self, rr: ResourceRecord)
        requires
            old(self).header.addtional_count < 0xffff,
        ensures
            final(self)@ == (MessageView {
                header: (Header {
                    addtional_count: (old(self).header.addtional_count + 1) as u16,
                    ..old(self).header
                }),
                additionals: old(self)@.additionals.push(rr@),
                ..old(self)@
            }),
            old(self)@.counts_match() ==> final(self)@.counts_match(),
    {
        self.header.addtional_count = self.header.addtional_count + 1;
        let ghost rv = rr@;
        self.additionals.push(rr);
        proof {
            assert(records_view(self.additionals@) =~= records_view(old(self).additionals@).push(
                rv,
            ));
        }
    }
}

/// A question whose bytes read back as itself from inside a message: its
/// name carries no compression pointer and every label reads back as a
/// literal.
pub open spec fn question_wire_valid(q: QuestionView) -> bool {
    &&& q.name is Sequence
    &&& label_unambiguous(q.name)
}

/// A record whose bytes read back as itself from inside a message: its
/// owner name carries no compression pointer, and the record round-trips.
pub open spec fn record_entry_wire_valid(r: ResourceRecordView) -> bool {
    &&& r.name is Sequence
    &&& record_wire_valid(r)
}

/// A message whose bytes read back as itself: the operation code is one of
/// the three defined ones, the counts name the section lengths, and every
/// entry is wire-valid with no compression pointers.
pub open spec fn message_wire_valid(m: MessageView) -> bool {
    &&& !(m.header.operation_code is Reserved)
    &&& m.counts_match()
    &&& forall|i: int|
        0 <= i < m.questions.len() ==> question_wire_valid(#[trigger] m.questions[i])
    &&& forall|i: int| 0 <= i < m.answers.len() ==> record_entry_wire_valid(#[trigger] m.answers[i])
    &&& forall|i: int|
        0 <= i < m.authorities.len() ==> record_entry_wire_valid(#[trigger] m.authorities[i])
    &&& forall|i: int|
        0 <= i < m.additionals.len() ==> record_entry_wire_valid(#[trigger] m.additionals[i])
}

/// Wire-valid questions written in a row at a position read back as
/// themselves, whatever follows them.
#[verifier::rlimit(100)]
proof fn lemma_questions_round_trip_at(full: Seq<u8>, pos: int, qs: Seq<QuestionView>, rest: Seq<u8>)
    requires
        0 <= pos <= full.len(),
        full.skip(pos) == questions_enc(qs) + rest,
        forall|i: int| 0 <= i < qs.len() ==> question_wire_valid(#[trigger] qs[i]),
    ensures
        spec_parse_questions(full, pos, qs.len() as nat) == Ok::<
            (Seq<QuestionView>, int),
            MessageParseError,
        >((qs, pos + questions_enc(qs).len())),
    decreases qs.len(),
{
    if qs.len() == 0 {
        assert(questions_enc(qs) =~= Seq::<u8>::empty());
        assert(qs =~= Seq::<QuestionView>::empty());
    } else {
        let q0 = qs[0];
        let dd = qs.drop_first();
        let tail = questions_enc(dd) + rest;
        assert(full.skip(pos) =~= question_enc(q0) + tail);
        lemma_question_round_trip(q0, tail);
        match q0.name {
            LabelView::Sequence(ss) => {
                assert(spec_expand(q0.name, full, pos as nat) == Ok::<LabelView, LabelError>(
                    LabelView::Sequence(ss),
                ));
            },
            LabelView::Compressed(_, _) => {},
        }
        let len0 = question_enc(q0).len() as int;
        assert(full.skip(pos).len() == full.len() - pos);
        vstd::seq_lib::lemma_seq_skip_of_skip(full, pos, len0);
        assert(full.skip(pos + len0) =~= tail) by {
            assert((question_enc(q0) + tail).skip(len0) =~= tail);
        }
        assert forall|i: int| 0 <= i < dd.len() implies question_wire_valid(#[trigger] dd[i]) by {
            assert(dd[i] == qs[i + 1]);
        }
        lemma_questions_round_trip_at(full, pos + len0, dd, rest);
        let parsed = spec_parse_questions(full, pos, qs.len() as nat);
        assert(parsed is Ok);
        assert(parsed->Ok_0.0 =~= qs) by {
            assert(seq![QuestionView { name: q0.name, typ: q0.typ, class: q0.class }] + dd =~= qs);
        }
        assert(questions_enc(qs).len() == len0 + questions_enc(dd).len());
    }
}

/// Wire-valid records written in a row at a position read back as
/// themselves, whatever follows them.
#[verifier::rlimit(100)]
proof fn lemma_records_round_trip_at(
    full: Seq<u8>,
    pos: int,
    rs: Seq<ResourceRecordView>,
    rest: Seq<u8>,
)
    requires
        0 <= pos <= full.len(),
        full.skip(pos) == records_enc(rs) + rest,
        forall|i: int| 0 <= i < rs.len() ==> record_entry_wire_valid(#[trigger] rs[i]),
    ensures
        spec_parse_records(full, pos, rs.len() as nat) == Ok::<
            (Seq<ResourceRecordView>, int),
            MessageParseError,
        >((rs, pos + records_enc(rs).len())),
    decreases rs.len(),
{
    if rs.len() == 0 {
        assert(records_enc(rs) =~= Seq::<u8>::empty());
        assert(rs =~= Seq::<ResourceRecordView>::empty());
    } else {
        let r0 = rs[0];
        let dd = rs.drop_first();
        let tail = records_enc(dd) + rest;
        assert(full.skip(pos) =~= record_enc(r0) + tail);
        lemma_record_round_trip(r0, tail);
        match r0.name {
            LabelView::Sequence(ss) => {
                assert(spec_expand(r0.name, full, pos as nat) == Ok::<LabelView, LabelError>(
                    LabelView::Sequence(ss),
                ));
            },
            LabelView::Compressed(_, _) => {},
        }
        let len0 = record_enc(r0).len() as int;
        assert(full.skip(pos).len() == full.len() - pos);
        vstd::seq_lib::lemma_seq_skip_of_skip(full, pos, len0);
        assert(full.skip(pos + len0) =~= tail) by {
            assert((record_enc(r0) + tail).skip(len0) =~= tail);
        }
        assert forall|i: int| 0 <= i < dd.len() implies record_entry_wire_valid(
            #[trigger] dd[i],
        ) by {
            assert(dd[i] == rs[i + 1]);
        }
        lemma_records_round_trip_at(full, pos + len0, dd, rest);
        let parsed = spec_parse_records(full, pos, rs.len() as nat);
        assert(parsed is Ok);
        assert(parsed->Ok_0.0 =~= rs) by {
            assert(seq![
                ResourceRecordView {
                    name: r0.name,
                    class: r0.class,
                    time_to_live: r0.time_to_live,
                    data: r0.data,
                },
            ] + dd =~= rs);
        }
        assert(records_enc(rs).len() == len0 + records_enc(dd).len());
    }
}

/// Message round trip: decoding the bytes a wire-valid message encodes to
/// yields the message again.  Wire-valid means: a defined operation code,
/// counts in step with the section lists, and entries without compression
/// pointers whose labels and payloads fit their wire fields.
#[verifier::rlimit(100)]
pub proof fn lemma_message_round_trip(m: MessageView)
    requires
        message_wire_valid(m),
    ensures
        spec_parse_message(message_enc(m)) == Ok::<MessageView, MessageParseError>(m),
{
    let b = message_enc(m);
    assert(m.header.enc().len() == 12);
    assert(b.len() >= 12);
    assert(b.subrange(0, 12) =~= m.header.enc());
    lemma_header_round_trip(m.header);
    let qb = questions_enc(m.questions);
    let ab = records_enc(m.answers);
    let ub = records_enc(m.authorities);
    let db = records_enc(m.additionals);
    assert(b.skip(12) =~= qb + (ab + (ub + db)));
    lemma_questions_round_trip_at(b, 12, m.questions, ab + (ub + db));
    let p1 = 12 + qb.len() as int;
    vstd::seq_lib::lemma_seq_skip_of_skip(b, 12, qb.len() as int);
    assert(b.skip(p1) =~= ab + (ub + db)) by {
        assert((qb + (ab + (ub + db))).skip(qb.len() as int) =~= ab + (ub + db));
    }
    lemma_records_round_trip_at(b, p1, m.answers, ub + db);
    let p2 = p1 + ab.len() as int;
    vstd::seq_lib::lemma_seq_skip_of_skip(b, p1, ab.len() as int);
    assert(b.skip(p2) =~= ub + db) by {
        assert((ab + (ub + db)).skip(ab.len() as int) =~= ub + db);
    }
    lemma_records_round_trip_at(b, p2, m.authorities, db);
    let p3 = p2 + ub.len() as int;
    vstd::seq_lib::lemma_seq_skip_of_skip(b, p2, ub.len() as int);
    assert(b.skip(p3) =~= db + Seq::<u8>::empty()) by {
        assert((ub + db).skip(ub.len() as int) =~= db);
        assert(db + Seq::<u8>::empty() =~= db);
    }
    lemma_records_round_trip_at(b, p3, m.additionals, Seq::empty());
    let parsed = spec_parse_message(b);
    assert(parsed is Ok);
    assert(parsed->Ok_0 =~= m);
}

/// Every entry of the message can be written: no unimplemented WKS
/// payload, every label and character-string fits its length octet, and
/// every payload fits its 16-bit length field.
pub open spec fn message_encodable(m: MessageView) -> bool {
    &&& forall|i: int|
        0 <= i < m.questions.len() ==> label_encodable(#[trigger] m.questions[i].name)
    &&& forall|i: int| 0 <= i < m.answers.len() ==> record_encodable(#[trigger] m.answers[i])
    &&& forall|i: int|
        0 <= i < m.authorities.len() ==> record_encodable(#[trigger] m.authorities[i])
    &&& forall|i: int|
        0 <= i < m.additionals.len() ==> record_encodable(#[trigger] m.additionals[i])
}

/// Encoding a question list succeeds exactly when every name is encodable,
/// and then writes `questions_enc`.
proof fn lemma_encode_questions_ok(qs: Seq<QuestionView>)
    ensures
        (spec_encode_questions(qs) is Ok) <==> (forall|i: int|
            0 <= i < qs.len() ==> label_encodable(#[trigger] qs[i].name)),
        spec_encode_questions(qs) matches Ok(b) ==> b == questions_enc(qs),
    decreases qs.len(),
{
    if qs.len() == 0 {
    } else {
        let dd = qs.drop_first();
        lemma_encode_label_ok(qs[0].name);
        lemma_encode_questions_ok(dd);
        if label_encodable(qs[0].name) && (spec_encode_questions(dd) is Ok) {
            assert forall|i: int| 0 <= i < qs.len() implies label_encodable(
                #[trigger] qs[i].name,
            ) by {
                if i > 0 {
                    assert(qs[i] == dd[i - 1]);
                    assert(label_encodable(dd[i - 1].name));
                }
            }
        }
        if forall|i: int| 0 <= i < qs.len() ==> label_encodable(#[trigger] qs[i].name) {
            assert forall|i: int| 0 <= i < dd.len() implies label_encodable(
                #[trigger] dd[i].name,
            ) by {
                assert(dd[i] == qs[i + 1]);
                assert(label_encodable(qs[i + 1].name));
            }
        }
    }
}

/// Encoding a record list succeeds exactly when every record is encodable,
/// and then writes `records_enc`.
proof fn lemma_encode_records_ok(rs: Seq<ResourceRecordView>)
    ensures
        (spec_encode_records(rs) is Ok) <==> (forall|i: int|
            0 <= i < rs.len() ==> record_encodable(#[trigger] rs[i])),
        spec_encode_records(rs) matches Ok(b) ==> b == records_enc(rs),
    decreases rs.len(),
{
    if rs.len() == 0 {
    } else {
        let dd = rs.drop_first();
        lemma_encode_record_ok(rs[0]);
        lemma_encode_records_ok(dd);
        if record_encodable(rs[0]) && (spec_encode_records(dd) is Ok) {
            assert forall|i: int| 0 <= i < rs.len() implies record_encodable(#[trigger] rs[i]) by {
                if i > 0 {
                    assert(rs[i] == dd[i - 1]);
                    assert(record_encodable(dd[i - 1]));
                }
            }
        }
        if forall|i: int| 0 <= i < rs.len() ==> record_encodable(#[trigger] rs[i]) {
            assert forall|i: int| 0 <= i < dd.len() implies record_encodable(#[trigger] dd[i]) by {
                assert(dd[i] == rs[i + 1]);
                assert(record_encodable(rs[i + 1]));
            }
        }
    }
}

/// Encoding a message succeeds exactly when every entry is encodable, and
/// then writes `message_enc`: spelled out, encoding can only fail on a
/// label or character-string over 255 bytes, on the unimplemented WKS
/// payload, or on a payload over 65535 bytes.
pub proof fn lemma_encode_message_ok(m: MessageView)
    ensures
        (spec_encode_message(m) is Ok) <==> message_encodable(m),
        spec_encode_message(m) matches Ok(b) ==> b == message_enc(m),
{
    lemma_encode_questions_ok(m.questions);
    lemma_encode_records_ok(m.answers);
    lemma_encode_records_ok(m.authorities);
    lemma_encode_records_ok(m.additionals);
}

/// A wire-valid message is in particular encodable, so the two lemmas
/// above compose: it encodes successfully and decodes back to itself.
pub proof fn lemma_wire_valid_encodable(m: MessageView)
    ensures
        message_wire_valid(m) ==> message_encodable(m),
{
    if message_wire_valid(m) {
        assert forall|i: int| 0 <= i < m.questions.len() implies label_encodable(
            #[trigger] m.questions[i].name,
        ) by {
            lemma_unambiguous_encodable(m.questions[i].name);
        }
        assert forall|i: int| 0 <= i < m.answers.len() implies record_encodable(
            #[trigger] m.answers[i],
        ) by {
            lemma_unambiguous_encodable(m.answers[i].name);
            lemma_rdata_wire_valid_encodable(m.answers[i].data);
        }
        assert forall|i: int| 0 <= i < m.authorities.len() implies record_encodable(
            #[trigger] m.authorities[i],
        ) by {
            lemma_unambiguous_encodable(m.authorities[i].name);
            lemma_rdata_wire_valid_encodable(m.authorities[i].data);
        }
        assert forall|i: int| 0 <= i < m.additionals.len() implies record_encodable(
            #[trigger] m.additionals[i],
        ) by {
            lemma_unambiguous_encodable(m.additionals[i].name);
            lemma_rdata_wire_valid_encodable(m.additionals[i].data);
        }
    }
}

} // verus!
