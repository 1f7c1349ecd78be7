//! Resource records: the entries of the answer, authority and additional
//! sections.
//!
//! ```txt
//!                                     1  1  1  1  1  1
//!       0  1  2  3  4  5  6  7  8  9  0  1  2  3  4  5
//!     +--+--+--+--+--+--+--+--+--+--+--+--+--+--+--+--+
//!     |                                               |
//!     /                      NAME                     /
//!     |                                               |
//!     +--+--+--+--+--+--+--+--+--+--+--+--+--+--+--+--+
//!     |                      TYPE                     |
//!     +--+--+--+--+--+--+--+--+--+--+--+--+--+--+--+--+
//!     |                     CLASS                     |
//!     +--+--+--+--+--+--+--+--+--+--+--+--+--+--+--+--+
//!     |                      TTL                      |
//!     |                                               |
//!     +--+--+--+--+--+--+--+--+--+--+--+--+--+--+--+--+
//!     |                   RDLENGTH                    |
//!     +--+--+--+--+--+--+--+--+--+--+--+--+--+--+--+--|
//!     /                     RDATA                     /
//!     +--+--+--+--+--+--+--+--+--+--+--+--+--+--+--+--+
//! ```
//!
//! The wire type code is never stored: it is derived from which payload
//! variant is present, so a record cannot claim one type and carry
//! another's data.
use vstd::prelude::*;
use vstd::slice::{slice_subrange, slice_to_vec};

use crate::label::{
    cs_enc, cs_encodable, label_enc, label_encodable, label_unambiguous,
    lemma_character_string_round_trip, lemma_encode_label_ok, lemma_label_round_trip,
    lemma_parse_label_len, parse_character_string, parse_label, spec_encode_character_string,
    spec_encode_label, spec_encode_strings, spec_parse_character_string, spec_parse_label,
    strings_enc, strings_view, CharacterString, Label, LabelError, LabelView,
};
use crate::type_class::{
    lemma_type_class_codes, resource_class_code, resource_class_of, resource_type_code,
    resource_type_of, ResourceClass, ResourceType, UnregisteredClass, UnregisteredType,
};
use crate::wire::{
    be_u16, be_u32, lemma_u16_of_bytes, lemma_u32_of_bytes, push_bytes, push_u16, push_u32,
    u16_bytes, u16_of, u32_bytes, u32_of,
};

verus! {

/// One resource record: a name, a class, a time to live and the typed
/// payload.
#[derive(Debug, Clone, PartialEq, Eq)]
pub struct ResourceRecord {
    /// The domain name to which this record pertains.
    pub name: Label,
    /// The class of the payload.
    pub class: ResourceClass,
    /// How many seconds the record may be cached; zero means the record is
    /// only for the transaction at hand and must not be cached.
    pub time_to_live: u32,
    /// The typed payload.
    pub data: ResourceData,
}

/// The typed payload of a record: one variant for each registered type,
/// carrying exactly the fields that type requires.
#[derive(Debug, Clone, PartialEq, Eq)]
pub enum ResourceData {
    /// (A) A host address, as the 32-bit value of its four dotted-quad
    /// bytes in order.
    Address(u32),
    /// (NS) The host that should be authoritative for the domain.
    NameServer(Label),
    /// (MD) A host with a mail agent for the domain (obsolete, use `MX`).
    MailDevice(Label),
    /// (MF) A host that accepts mail for forwarding (obsolete, use `MX`).
    MailForward(Label),
    /// (CNAME) The canonical name for an alias.
    CanonicalName(Label),
    /// (SOA) The start of a zone of authority.  All times are in seconds.
    SOA {
        /// The primary source of data for the zone.
        name: Label,
        /// The mailbox of the person responsible for the zone.
        mail: Label,
        /// Version number of the original copy of the zone.
        serial: u32,
        /// Interval before the zone should be refreshed.
        refresh: u32,
        /// Interval before a failed refresh should be retried.
        retry: u32,
        /// Upper limit on the time the zone stays authoritative.
        expire: u32,
        /// Minimum time to live for any record exported from the zone.
        minimum: u32,
    },
    /// (MB) The host that has the specified mailbox (experimental).
    MailBox(Label),
    /// (MG) A mailbox that is a member of the mail group (experimental).
    MailGroup(Label),
    /// (MR) The proper rename of the specified mailbox (experimental).
    MailRename(Label),
    /// (NULL) Anything at all, up to 65535 bytes (experimental).
    Null(Vec<u8>),
    /// (WKS) A well-known-service description.  The payload format is not
    /// implemented: decoding and encoding it fail with `NotImplemented`
    /// rather than dropping the data.  The variant stays in the registry so
    /// that such a record is never misclassified.
    WKS {
        /// The host address the services run on.
        address: u32,
        /// The IP protocol number.
        protocol: u8,
    },
    /// (PTR) A pointer to some location in the name space.
    Ptr(Label),
    /// (HINFO) The CPU and operating system of a host.
    HostInfo { cpu: CharacterString, os: CharacterString },
    /// (MINFO) Mailbox or mail list information.
    MailInfo {
        /// The mailbox responsible for the list or mailbox.
        mailbox: Label,
        /// Where errors related to the list or mailbox go.
        error_mailbox: Label,
    },
    /// (MX) A host willing to act as a mail exchange.
    MailExchange {
        /// The preference among records of the same owner; lower wins.
        preference: u16,
        /// The exchange host.
        exchange: Label,
    },
    /// (TXT) Descriptive text, as one or more character-strings.
    Text(Vec<CharacterString>),
}

/// The mathematical shape of a `ResourceData`.
#[verifier::ext_equal]
pub enum ResourceDataView {
    Address(u32),
    NameServer(LabelView),
    MailDevice(LabelView),
    MailForward(LabelView),
    CanonicalName(LabelView),
    SOA {
        name: LabelView,
        mail: LabelView,
        serial: u32,
        refresh: u32,
        retry: u32,
        expire: u32,
        minimum: u32,
    },
    MailBox(LabelView),
    MailGroup(LabelView),
    MailRename(LabelView),
    Null(Seq<u8>),
    WKS { address: u32, protocol: u8 },
    Ptr(LabelView),
    HostInfo { cpu: Seq<u8>, os: Seq<u8> },
    MailInfo { mailbox: LabelView, error_mailbox: LabelView },
    MailExchange { preference: u16, exchange: LabelView },
    Text(Seq<Seq<u8>>),
}

/// The mathematical shape of a `ResourceRecord`.
#[verifier::ext_equal]
pub struct ResourceRecordView {
    pub name: LabelView,
    pub class: ResourceClass,
    pub time_to_live: u32,
    pub data: ResourceDataView,
}

impl View for ResourceData {
    type V = ResourceDataView;

    open spec fn view(&self) -> ResourceDataView {
        match self {
            ResourceData::Address(a) => ResourceDataView::Address(*a),
            ResourceData::NameServer(l) => ResourceDataView::NameServer(l@),
            ResourceData::MailDevice(l) => ResourceDataView::MailDevice(l@),
            ResourceData::MailForward(l) => ResourceDataView::MailForward(l@),
            ResourceData::CanonicalName(l) => ResourceDataView::CanonicalName(l@),
            ResourceData::SOA { name, mail, serial, refresh, retry, expire, minimum } => (
            ResourceDataView::SOA {
                name: name@,
                mail: mail@,
                serial: *serial,
                refresh: *refresh,
                retry: *retry,
                expire: *expire,
                minimum: *minimum,
            }),
            ResourceData::MailBox(l) => ResourceDataView::MailBox(l@),
            ResourceData::MailGroup(l) => ResourceDataView::MailGroup(l@),
            ResourceData::MailRename(l) => ResourceDataView::MailRename(l@),
            ResourceData::Null(v) => ResourceDataView::Null(v@),
            ResourceData::WKS { address, protocol } => (ResourceDataView::WKS {
                address: *address,
                protocol: *protocol,
            }),
            ResourceData::Ptr(l) => ResourceDataView::Ptr(l@),
            ResourceData::HostInfo { cpu, os } => (ResourceDataView::HostInfo {
                cpu: cpu@,
                os: os@,
            }),
            ResourceData::MailInfo { mailbox, error_mailbox } => (ResourceDataView::MailInfo {
                mailbox: mailbox@,
                error_mailbox: error_mailbox@,
            }),
            ResourceData::MailExchange { preference, exchange } => (
            ResourceDataView::MailExchange { preference: *preference, exchange: exchange@ }),
            ResourceData::Text(v) => ResourceDataView::Text(strings_view(v@)),
        }
    }
}

impl View for ResourceRecord {
    type V = ResourceRecordView;

    open spec fn view(&self) -> ResourceRecordView {
        ResourceRecordView {
            name: self.name@,
            class: self.class,
            time_to_live: self.time_to_live,
            data: self.data@,
        }
    }
}

/// The wire type that a payload variant belongs to.
pub open spec fn data_typ(d: ResourceDataView) -> ResourceType {
    match d {
        ResourceDataView::Address(_) => ResourceType::A,
        ResourceDataView::NameServer(_) => ResourceType::NS,
        ResourceDataView::MailDevice(_) => ResourceType::MD,
        ResourceDataView::MailForward(_) => ResourceType::MF,
        ResourceDataView::CanonicalName(_) => ResourceType::CNAME,
        ResourceDataView::SOA { .. } => ResourceType::SOA,
        ResourceDataView::MailBox(_) => ResourceType::MB,
        ResourceDataView::MailGroup(_) => ResourceType::MG,
        ResourceDataView::MailRename(_) => ResourceType::MR,
        ResourceDataView::Null(_) => ResourceType::NULL,
        ResourceDataView::WKS { .. } => ResourceType::WKS,
        ResourceDataView::Ptr(_) => ResourceType::PTR,
        ResourceDataView::HostInfo { .. } => ResourceType::HINFO,
        ResourceDataView::MailInfo { .. } => ResourceType::MINFO,
        ResourceDataView::MailExchange { .. } => ResourceType::MX,
        ResourceDataView::Text(_) => ResourceType::TXT,
    }
}

impl ResourceData {
    /// The wire type this payload belongs to.
    pub fn typ(&self) -> (t: ResourceType)
        ensures
            t == data_typ(self@),
    {
        match self {
            ResourceData::Address(_) => ResourceType::A,
            ResourceData::NameServer(_) => ResourceType::NS,
            ResourceData::MailDevice(_) => ResourceType::MD,
            ResourceData::MailForward(_) => ResourceType::MF,
            ResourceData::CanonicalName(_) => ResourceType::CNAME,
            ResourceData::SOA { .. } => ResourceType::SOA,
            ResourceData::MailBox(_) => ResourceType::MB,
            ResourceData::MailGroup(_) => ResourceType::MG,
            ResourceData::MailRename(_) => ResourceType::MR,
            ResourceData::Null(_) => ResourceType::NULL,
            ResourceData::WKS { .. } => ResourceType::WKS,
            ResourceData::Ptr(_) => ResourceType::PTR,
            ResourceData::HostInfo { .. } => ResourceType::HINFO,
            ResourceData::MailInfo { .. } => ResourceType::MINFO,
            ResourceData::MailExchange { .. } => ResourceType::MX,
            ResourceData::Text(_) => ResourceType::TXT,
        }
    }
}

impl ResourceRecord {
    /// The wire type of this record, derived from its payload.
    pub fn typ(&self) -> (t: ResourceType)
        ensures
            t == data_typ(self@.data),
    {
        self.data.typ()
    }
}

/// The ways a payload can fail to parse or to encode.
#[derive(Debug, Clone, Copy, PartialEq, Eq, Structural)]
pub enum ResourceDataError {
    /// A name or character-string inside the payload did not parse or
    /// encode.
    Label(LabelError),
    /// The payload format of the record type is not implemented (WKS).
    NotImplemented,
}

/// The ways a whole record can fail to parse or to encode.
#[derive(Debug, Clone, Copy, PartialEq, Eq, Structural)]
pub enum ResourceRecordError {
    /// The owner name did not parse or encode.
    Label(LabelError),
    /// The payload did not parse or encode.
    Data(ResourceDataError),
    /// The type code is not in the registry.
    Type(UnregisteredType),
    /// The class code is not in the registry.
    Class(UnregisteredClass),
    /// An encoded payload is longer than the 16-bit length field can say.
    DataTooLarge(usize),
}

/// What parsing a run of character-strings that fill a whole region
/// returns.
pub open spec fn spec_parse_texts(b: Seq<u8>) -> Result<Seq<Seq<u8>>, LabelError>
    decreases b.len(),
{
    if b.len() == 0 {
        Ok(Seq::empty())
    } else {
        match spec_parse_character_string(b) {
            Err(e) => Err(e),
            Ok(c) => match spec_parse_texts(b.skip(c.1)) {
                Ok(t) => Ok(seq![c.0] + t),
                Err(e) => Err(e),
            },
        }
    }
}

/// What parsing the payload region of a record returns, given the record
/// type the region was declared with.  The region is exactly the RDLENGTH
/// bytes; nothing past it is read.
pub open spec fn spec_parse_rdata(t: ResourceType, b: Seq<u8>) -> Result<
    ResourceDataView,
    ResourceDataError,
> {
    match t {
        ResourceType::A => {
            if b.len() < 4 {
                Err(ResourceDataError::Label(LabelError::IncompleteBuffer))
            } else {
                Ok(ResourceDataView::Address(u32_of(b[0], b[1], b[2], b[3])))
            }
        },
        ResourceType::NS => match spec_parse_label(b) {
            Ok(t) => Ok(ResourceDataView::NameServer(t.0)),
            Err(e) => Err(ResourceDataError::Label(e)),
        },
        ResourceType::MD => match spec_parse_label(b) {
            Ok(t) => Ok(ResourceDataView::MailDevice(t.0)),
            Err(e) => Err(ResourceDataError::Label(e)),
        },
        ResourceType::MF => match spec_parse_label(b) {
            Ok(t) => Ok(ResourceDataView::MailForward(t.0)),
            Err(e) => Err(ResourceDataError::Label(e)),
        },
        ResourceType::CNAME => match spec_parse_label(b) {
            Ok(t) => Ok(ResourceDataView::CanonicalName(t.0)),
            Err(e) => Err(ResourceDataError::Label(e)),
        },
        ResourceType::SOA => match spec_parse_label(b) {
            Err(e) => Err(ResourceDataError::Label(e)),
            Ok(t1) => match spec_parse_label(b.skip(t1.1)) {
                Err(e) => Err(ResourceDataError::Label(e)),
                Ok(t2) => {
                    let rest = b.skip(t1.1 + t2.1);
                    if rest.len() < 20 {
                        Err(ResourceDataError::Label(LabelError::IncompleteBuffer))
                    } else {
                        Ok(
                            ResourceDataView::SOA {
                                name: t1.0,
                                mail: t2.0,
                                serial: u32_of(rest[0], rest[1], rest[2], rest[3]),
                                refresh: u32_of(rest[4], rest[5], rest[6], rest[7]),
                                retry: u32_of(rest[8], rest[9], rest[10], rest[11]),
                                expire: u32_of(rest[12], rest[13], rest[14], rest[15]),
                                minimum: u32_of(rest[16], rest[17], rest[18], rest[19]),
                            },
                        )
                    }
                },
            },
        },
        ResourceType::MB => match spec_parse_label(b) {
            Ok(t) => Ok(ResourceDataView::MailBox(t.0)),
            Err(e) => Err(ResourceDataError::Label(e)),
        },
        ResourceType::MG => match spec_parse_label(b) {
            Ok(t) => Ok(ResourceDataView::MailGroup(t.0)),
            Err(e) => Err(ResourceDataError::Label(e)),
        },
        ResourceType::MR => match spec_parse_label(b) {
            Ok(t) => Ok(ResourceDataView::MailRename(t.0)),
            Err(e) => Err(ResourceDataError::Label(e)),
        },
        ResourceType::NULL => Ok(ResourceDataView::Null(b)),
        ResourceType::WKS => Err(ResourceDataError::NotImplemented),
        ResourceType::PTR => match spec_parse_label(b) {
            Ok(t) => Ok(ResourceDataView::Ptr(t.0)),
            Err(e) => Err(ResourceDataError::Label(e)),
        },
        ResourceType::HINFO => match spec_parse_character_string(b) {
            Err(e) => Err(ResourceDataError::Label(e)),
            Ok(c1) => match spec_parse_character_string(b.skip(c1.1)) {
                Err(e) => Err(ResourceDataError::Label(e)),
                Ok(c2) => Ok(ResourceDataView::HostInfo { cpu: c1.0, os: c2.0 }),
            },
        },
        ResourceType::MINFO => match spec_parse_label(b) {
            Err(e) => Err(ResourceDataError::Label(e)),
            Ok(t1) => match spec_parse_label(b.skip(t1.1)) {
                Err(e) => Err(ResourceDataError::Label(e)),
                Ok(t2) => Ok(ResourceDataView::MailInfo { mailbox: t1.0, error_mailbox: t2.0 }),
            },
        },
        ResourceType::MX => {
            if b.len() < 2 {
                Err(ResourceDataError::Label(LabelError::IncompleteBuffer))
            } else {
                match spec_parse_label(b.skip(2)) {
                    Ok(t) => Ok(
                        ResourceDataView::MailExchange {
                            preference: u16_of(b[0], b[1]),
                            exchange: t.0,
                        },
                    ),
                    Err(e) => Err(ResourceDataError::Label(e)),
                }
            }
        },
        ResourceType::TXT => match spec_parse_texts(b) {
            Ok(ss) => Ok(ResourceDataView::Text(ss)),
            Err(e) => Err(ResourceDataError::Label(e)),
        },
    }
}

/// What parsing one whole record from the front of a buffer returns: the
/// name, the fixed type, class, time-to-live and length fields, then the
/// payload region of exactly that length, interpreted by the type.
pub open spec fn spec_parse_resource_record(b: Seq<u8>) -> Result<
    (ResourceRecordView, int),
    ResourceRecordError,
> {
    match spec_parse_label(b) {
        Err(e) => Err(ResourceRecordError::Label(e)),
        Ok(t) => {
            let rest = b.skip(t.1);
            if rest.len() < 10 {
                Err(ResourceRecordError::Label(LabelError::IncompleteBuffer))
            } else {
                match resource_type_of(u16_of(rest[0], rest[1])) {
                    Err(e) => Err(ResourceRecordError::Type(e)),
                    Ok(typ) => match resource_class_of(u16_of(rest[2], rest[3])) {
                        Err(e) => Err(ResourceRecordError::Class(e)),
                        Ok(class) => {
                            let ttl = u32_of(rest[4], rest[5], rest[6], rest[7]);
                            let len = u16_of(rest[8], rest[9]) as int;
                            if rest.len() - 10 < len {
                                Err(ResourceRecordError::Label(LabelError::IncompleteBuffer))
                            } else {
                                match spec_parse_rdata(typ, rest.subrange(10, 10 + len)) {
                                    Err(e) => Err(ResourceRecordError::Data(e)),
                                    Ok(d) => Ok(
                                        (
                                            ResourceRecordView {
                                                name: t.0,
                                                class,
                                                time_to_live: ttl,
                                                data: d,
                                            },
                                            t.1 + 10 + len,
                                        ),
                                    ),
                                }
                            }
                        },
                    },
                }
            }
        },
    }
}

/// A parse result with the parsed value taken to its view.
pub open spec fn data_result_view(r: Result<ResourceData, ResourceDataError>) -> Result<
    ResourceDataView,
    ResourceDataError,
> {
    match r {
        Ok(d) => Ok(d@),
        Err(e) => Err(e),
    }
}

/// A parse result with the parsed value taken to its view.
pub open spec fn record_result_view(r: Result<(ResourceRecord, usize), ResourceRecordError>)
    -> Result<(ResourceRecordView, int), ResourceRecordError> {
    match r {
        Ok((rec, n)) => Ok((rec@, n as int)),
        Err(e) => Err(e),
    }
}

/// Parses a payload that is a single domain name.
fn parse_name_data(b: &[u8]) -> (r: Result<Label, ResourceDataError>)
    ensures
        (match r {
            Ok(l) => spec_parse_label(b@) matches Ok(t) && t.0 == l@,
            Err(e) => (spec_parse_label(b@) matches Err(le) && e == ResourceDataError::Label(le)),
        }),
{
    match parse_label(b) {
        Ok(t) => Ok(t.0),
        Err(e) => Err(ResourceDataError::Label(e)),
    }
}

/// Parses the run of character-strings that fills a TXT payload region.
fn parse_texts(b: &[u8]) -> (r: Result<Vec<CharacterString>, LabelError>)
    ensures
        (match r {
            Ok(v) => spec_parse_texts(b@) == Ok::<Seq<Seq<u8>>, LabelError>(strings_view(v@)),
            Err(e) => spec_parse_texts(b@) == Err::<Seq<Seq<u8>>, LabelError>(e),
        }),
{
    let mut text: Vec<CharacterString> = Vec::new();
    let mut i: usize = 0;
    proof {
        assert(b@.skip(0) =~= b@);
        assert(strings_view(text@) =~= Seq::<Seq<u8>>::empty());
        match spec_parse_texts(b@) {
            Ok(t) => {
                assert(Seq::<Seq<u8>>::empty() + t =~= t);
            },
            Err(e) => {},
        }
    }
    while i < b.len()
        invariant
            i <= b@.len(),
            (match spec_parse_texts(b@.skip(i as int)) {
                Ok(t) => spec_parse_texts(b@) == Ok::<Seq<Seq<u8>>, LabelError>(
                    strings_view(text@) + t,
                ),
                Err(e) => spec_parse_texts(b@) == Err::<Seq<Seq<u8>>, LabelError>(e),
            }),
        decreases b@.len() - i,
    {
        let ghost rest = b@.skip(i as int);
        let tail = slice_subrange(b, i, b.len());
        proof {
            assert(tail@ =~= rest);
        }
        let (s, n) = match parse_character_string(tail) {
            Ok(t) => t,
            Err(e) => {
                return Err(e);
            },
        };
        let ghost old_text = text@;
        text.push(s);
        proof {
            assert(strings_view(text@) =~= strings_view(old_text).push(s@));
            assert(rest.skip(n as int) =~= b@.skip(i + n));
            match spec_parse_texts(b@.skip(i + n)) {
                Ok(t) => {
                    assert(strings_view(old_text) + (seq![s@] + t) =~= strings_view(text@) + t);
                },
                Err(e) => {},
            }
        }
        i = i + n;
    }
    proof {
        assert(b@.skip(i as int) =~= Seq::<u8>::empty());
        assert(strings_view(text@) + Seq::<Seq<u8>>::empty() =~= strings_view(text@));
    }
    Ok(text)
}

/// Parses the payload region of a record, dispatching on the record type.
/// The region is exactly the RDLENGTH bytes.
fn parse_rdata(typ: ResourceType, b: &[u8]) -> (r: Result<ResourceData, ResourceDataError>)
    ensures
        data_result_view(r) == spec_parse_rdata(typ, b@),
{
    match typ {
        ResourceType::A => {
            if b.len() < 4 {
                return Err(ResourceDataError::Label(LabelError::IncompleteBuffer));
            }
            Ok(ResourceData::Address(be_u32(b[0], b[1], b[2], b[3])))
        },
        ResourceType::NS => {
            let l = parse_name_data(b)?;
            Ok(ResourceData::NameServer(l))
        },
        ResourceType::MD => {
            let l = parse_name_data(b)?;
            Ok(ResourceData::MailDevice(l))
        },
        ResourceType::MF => {
            let l = parse_name_data(b)?;
            Ok(ResourceData::MailForward(l))
        },
        ResourceType::CNAME => {
            let l = parse_name_data(b)?;
            Ok(ResourceData::CanonicalName(l))
        },
        ResourceType::SOA => {
            proof {
                lemma_parse_label_len(b@);
            }
            let (name, o1) = match parse_label(b) {
                Ok(t) => t,
                Err(e) => {
                    return Err(ResourceDataError::Label(e));
                },
            };
            let tail = slice_subrange(b, o1, b.len());
            proof {
                assert(tail@ =~= b@.skip(o1 as int));
                lemma_parse_label_len(tail@);
            }
            let (mail, o2) = match parse_label(tail) {
                Ok(t) => t,
                Err(e) => {
                    return Err(ResourceDataError::Label(e));
                },
            };
            let ghost rest = b@.skip(o1 as int + o2 as int);
            proof {
                assert(tail@.skip(o2 as int) =~= rest);
            }
            if b.len() - o1 - o2 < 20 {
                return Err(ResourceDataError::Label(LabelError::IncompleteBuffer));
            }
            let base = o1 + o2;
            proof {
                assert(forall|k: int| 0 <= k < 20 ==> rest[k] == b@[base + k]);
            }
            Ok(
                ResourceData::SOA {
                    name,
                    mail,
                    serial: be_u32(b[base], b[base + 1], b[base + 2], b[base + 3]),
                    refresh: be_u32(b[base + 4], b[base + 5], b[base + 6], b[base + 7]),
                    retry: be_u32(b[base + 8], b[base + 9], b[base + 10], b[base + 11]),
                    expire: be_u32(b[base + 12], b[base + 13], b[base + 14], b[base + 15]),
                    minimum: be_u32(b[base + 16], b[base + 17], b[base + 18], b[base + 19]),
                },
            )
        },
        ResourceType::MB => {
            let l = parse_name_data(b)?;
            Ok(ResourceData::MailBox(l))
        },
        ResourceType::MG => {
            let l = parse_name_data(b)?;
            Ok(ResourceData::MailGroup(l))
        },
        ResourceType::MR => {
            let l = parse_name_data(b)?;
            Ok(ResourceData::MailRename(l))
        },
        ResourceType::NULL => Ok(ResourceData::Null(slice_to_vec(b))),
        ResourceType::WKS => Err(ResourceDataError::NotImplemented),
        ResourceType::PTR => {
            let l = parse_name_data(b)?;
            Ok(ResourceData::Ptr(l))
        },
        ResourceType::HINFO => {
            let (cpu, n1) = match parse_character_string(b) {
                Ok(t) => t,
                Err(e) => {
                    return Err(ResourceDataError::Label(e));
                },
            };
            proof {
                assert(n1 <= b@.len());
            }
            let tail = slice_subrange(b, n1, b.len());
            proof {
                assert(tail@ =~= b@.skip(n1 as int));
            }
            let (os, _n2) = match parse_character_string(tail) {
                Ok(t) => t,
                Err(e) => {
                    return Err(ResourceDataError::Label(e));
                },
            };
            Ok(ResourceData::HostInfo { cpu, os })
        },
        ResourceType::MINFO => {
            proof {
                lemma_parse_label_len(b@);
            }
            let (mailbox, o1) = match parse_label(b) {
                Ok(t) => t,
                Err(e) => {
                    return Err(ResourceDataError::Label(e));
                },
            };
            let tail = slice_subrange(b, o1, b.len());
            proof {
                assert(tail@ =~= b@.skip(o1 as int));
            }
            let (error_mailbox, _o2) = match parse_label(tail) {
                Ok(t) => t,
                Err(e) => {
                    return Err(ResourceDataError::Label(e));
                },
            };
            Ok(ResourceData::MailInfo { mailbox, error_mailbox })
        },
        ResourceType::MX => {
            if b.len() < 2 {
                return Err(ResourceDataError::Label(LabelError::IncompleteBuffer));
            }
            let preference = be_u16(b[0], b[1]);
            let tail = slice_subrange(b, 2, b.len());
            proof {
                assert(tail@ =~= b@.skip(2));
            }
            let exchange = match parse_label(tail) {
                Ok(t) => t.0,
                Err(e) => {
                    return Err(ResourceDataError::Label(e));
                },
            };
            Ok(ResourceData::MailExchange { preference, exchange })
        },
        ResourceType::TXT => {
            let text = match parse_texts(b) {
                Ok(v) => v,
                Err(e) => {
                    return Err(ResourceDataError::Label(e));
                },
            };
            Ok(ResourceData::Text(text))
        },
    }
}

/// Parses one whole record from the front of the buffer: the name, ten
/// fixed bytes, then the payload region whose length the tenth and ninth
/// bytes declare.  Returns the record and how many bytes were consumed.
pub fn parse_resource_record(value: &[u8]) -> (r: Result<
    (ResourceRecord, usize),
    ResourceRecordError,
>)
    ensures
        record_result_view(r) == spec_parse_resource_record(value@),
{
    proof {
        lemma_parse_label_len(value@);
    }
    let (name, offset) = match parse_label(value) {
        Ok(t) => t,
        Err(e) => {
            return Err(ResourceRecordError::Label(e));
        },
    };
    let ghost rest = value@.skip(offset as int);
    if value.len() - offset < 10 {
        return Err(ResourceRecordError::Label(LabelError::IncompleteBuffer));
    }
    proof {
        assert(forall|k: int| 0 <= k < 10 ==> rest[k] == value@[offset + k]);
    }
    let typ = match ResourceType::from_code(be_u16(value[offset], value[offset + 1])) {
        Ok(t) => t,
        Err(e) => {
            return Err(ResourceRecordError::Type(e));
        },
    };
    let class = match ResourceClass::from_code(be_u16(value[offset + 2], value[offset + 3])) {
        Ok(c) => c,
        Err(e) => {
            return Err(ResourceRecordError::Class(e));
        },
    };
    let time_to_live = be_u32(
        value[offset + 4],
        value[offset + 5],
        value[offset + 6],
        value[offset + 7],
    );
    let len = be_u16(value[offset + 8], value[offset + 9]) as usize;
    if value.len() - offset - 10 < len {
        return Err(ResourceRecordError::Label(LabelError::IncompleteBuffer));
    }
    let region = slice_subrange(value, offset + 10, offset + 10 + len);
    proof {
        assert(region@ =~= rest.subrange(10, 10 + len as int));
    }
    let data = match parse_rdata(typ, region) {
        Ok(d) => d,
        Err(e) => {
            return Err(ResourceRecordError::Data(e));
        },
    };
    Ok((ResourceRecord { name, class, time_to_live, data }, offset + 10 + len))
}

/// A parsed record consumes at least eleven bytes and at most the whole
/// buffer.
pub proof fn lemma_parse_record_len(b: Seq<u8>)
    ensures
        spec_parse_resource_record(b) matches Ok(t) ==> 11 <= t.1 <= b.len(),
{
    lemma_parse_label_len(b);
}

/// The bytes a payload encodes to.  Meaningful when the payload is
/// encodable; the unimplemented WKS payload has no encoding and is mapped
/// to the empty sequence, which nothing relies on.
pub open spec fn rdata_enc(d: ResourceDataView) -> Seq<u8> {
    match d {
        ResourceDataView::Address(a) => u32_bytes(a),
        ResourceDataView::NameServer(l) => label_enc(l),
        ResourceDataView::MailDevice(l) => label_enc(l),
        ResourceDataView::MailForward(l) => label_enc(l),
        ResourceDataView::CanonicalName(l) => label_enc(l),
        ResourceDataView::SOA { name, mail, serial, refresh, retry, expire, minimum } => label_enc(
            name,
        ) + label_enc(mail) + u32_bytes(serial) + u32_bytes(refresh) + u32_bytes(retry)
            + u32_bytes(expire) + u32_bytes(minimum),
        ResourceDataView::MailBox(l) => label_enc(l),
        ResourceDataView::MailGroup(l) => label_enc(l),
        ResourceDataView::MailRename(l) => label_enc(l),
        ResourceDataView::Null(bs) => bs,
        ResourceDataView::WKS { .. } => Seq::empty(),
        ResourceDataView::Ptr(l) => label_enc(l),
        ResourceDataView::HostInfo { cpu, os } => cs_enc(cpu) + cs_enc(os),
        ResourceDataView::MailInfo { mailbox, error_mailbox } => label_enc(mailbox) + label_enc(
            error_mailbox,
        ),
        ResourceDataView::MailExchange { preference, exchange } => u16_bytes(preference)
            + label_enc(exchange),
        ResourceDataView::Text(ss) => strings_enc(ss),
    }
}

/// The payload can be written: it is not the unimplemented WKS payload,
/// and every name label and character-string in it fits its length octet.
pub open spec fn rdata_encodable(d: ResourceDataView) -> bool {
    match d {
        ResourceDataView::Address(_) => true,
        ResourceDataView::NameServer(l) => label_encodable(l),
        ResourceDataView::MailDevice(l) => label_encodable(l),
        ResourceDataView::MailForward(l) => label_encodable(l),
        ResourceDataView::CanonicalName(l) => label_encodable(l),
        ResourceDataView::SOA { name, mail, .. } => label_encodable(name) && label_encodable(mail),
        ResourceDataView::MailBox(l) => label_encodable(l),
        ResourceDataView::MailGroup(l) => label_encodable(l),
        ResourceDataView::MailRename(l) => label_encodable(l),
        ResourceDataView::Null(_) => true,
        ResourceDataView::WKS { .. } => false,
        ResourceDataView::Ptr(l) => label_encodable(l),
        ResourceDataView::HostInfo { cpu, os } => cs_encodable(cpu) && cs_encodable(os),
        ResourceDataView::MailInfo { mailbox, error_mailbox } => label_encodable(mailbox)
            && label_encodable(error_mailbox),
        ResourceDataView::MailExchange { exchange, .. } => label_encodable(exchange),
        ResourceDataView::Text(ss) => forall|i: int|
            0 <= i < ss.len() ==> cs_encodable(#[trigger] ss[i]),
    }
}

/// What encoding a payload returns: its wire bytes, or the first error.
/// The WKS payload always fails with `NotImplemented`.
pub open spec fn spec_encode_rdata(d: ResourceDataView) -> Result<Seq<u8>, ResourceDataError> {
    match d {
        ResourceDataView::Address(a) => Ok(u32_bytes(a)),
        ResourceDataView::NameServer(l) => match spec_encode_label(l) {
            Ok(b) => Ok(b),
            Err(e) => Err(ResourceDataError::Label(e)),
        },
        ResourceDataView::MailDevice(l) => match spec_encode_label(l) {
            Ok(b) => Ok(b),
            Err(e) => Err(ResourceDataError::Label(e)),
        },
        ResourceDataView::MailForward(l) => match spec_encode_label(l) {
            Ok(b) => Ok(b),
            Err(e) => Err(ResourceDataError::Label(e)),
        },
        ResourceDataView::CanonicalName(l) => match spec_encode_label(l) {
            Ok(b) => Ok(b),
            Err(e) => Err(ResourceDataError::Label(e)),
        },
        ResourceDataView::SOA { name, mail, serial, refresh, retry, expire, minimum } => match (
        spec_encode_label(name)) {
            Err(e) => Err(ResourceDataError::Label(e)),
            Ok(nb) => match spec_encode_label(mail) {
                Err(e) => Err(ResourceDataError::Label(e)),
                Ok(mb) => Ok(
                    nb + mb + u32_bytes(serial) + u32_bytes(refresh) + u32_bytes(retry)
                        + u32_bytes(expire) + u32_bytes(minimum),
                ),
            },
        },
        ResourceDataView::MailBox(l) => match spec_encode_label(l) {
            Ok(b) => Ok(b),
            Err(e) => Err(ResourceDataError::Label(e)),
        },
        ResourceDataView::MailGroup(l) => match spec_encode_label(l) {
            Ok(b) => Ok(b),
            Err(e) => Err(ResourceDataError::Label(e)),
        },
        ResourceDataView::MailRename(l) => match spec_encode_label(l) {
            Ok(b) => Ok(b),
            Err(e) => Err(ResourceDataError::Label(e)),
        },
        ResourceDataView::Null(bs) => Ok(bs),
        ResourceDataView::WKS { .. } => Err(ResourceDataError::NotImplemented),
        ResourceDataView::Ptr(l) => match spec_encode_label(l) {
            Ok(b) => Ok(b),
            Err(e) => Err(ResourceDataError::Label(e)),
        },
        ResourceDataView::HostInfo { cpu, os } => match spec_encode_character_string(cpu) {
            Err(e) => Err(ResourceDataError::Label(e)),
            Ok(cb) => match spec_encode_character_string(os) {
                Err(e) => Err(ResourceDataError::Label(e)),
                Ok(ob) => Ok(cb + ob),
            },
        },
        ResourceDataView::MailInfo { mailbox, error_mailbox } => match spec_encode_label(mailbox) {
            Err(e) => Err(ResourceDataError::Label(e)),
            Ok(nb) => match spec_encode_label(error_mailbox) {
                Err(e) => Err(ResourceDataError::Label(e)),
                Ok(mb) => Ok(nb + mb),
            },
        },
        ResourceDataView::MailExchange { preference, exchange } => match spec_encode_label(
            exchange,
        ) {
            Err(e) => Err(ResourceDataError::Label(e)),
            Ok(b) => Ok(u16_bytes(preference) + b),
        },
        ResourceDataView::Text(ss) => match spec_encode_strings(ss) {
            Ok(b) => Ok(b),
            Err(e) => Err(ResourceDataError::Label(e)),
        },
    }
}

/// Encoding a payload succeeds exactly when it is encodable, and then
/// writes `rdata_enc`.
pub proof fn lemma_encode_rdata_ok(d: ResourceDataView)
    ensures
        (spec_encode_rdata(d) is Ok) <==> rdata_encodable(d),
        spec_encode_rdata(d) matches Ok(b) ==> b == rdata_enc(d),
{
    match d {
        ResourceDataView::NameServer(l) => lemma_encode_label_ok(l),
        ResourceDataView::MailDevice(l) => lemma_encode_label_ok(l),
        ResourceDataView::MailForward(l) => lemma_encode_label_ok(l),
        ResourceDataView::CanonicalName(l) => lemma_encode_label_ok(l),
        ResourceDataView::SOA { name, mail, .. } => {
            lemma_encode_label_ok(name);
            lemma_encode_label_ok(mail);
        },
        ResourceDataView::MailBox(l) => lemma_encode_label_ok(l),
        ResourceDataView::MailGroup(l) => lemma_encode_label_ok(l),
        ResourceDataView::MailRename(l) => lemma_encode_label_ok(l),
        ResourceDataView::Ptr(l) => lemma_encode_label_ok(l),
        ResourceDataView::MailInfo { mailbox, error_mailbox } => {
            lemma_encode_label_ok(mailbox);
            lemma_encode_label_ok(error_mailbox);
        },
        ResourceDataView::MailExchange { exchange, .. } => lemma_encode_label_ok(exchange),
        ResourceDataView::Text(ss) => crate::label::lemma_encode_strings_ok(ss),
        _ => {},
    }
}

/// The bytes a whole record encodes to: the name, the type code derived
/// from the payload variant, the class code, the time to live, then the
/// payload length and the payload.
pub open spec fn record_enc(r: ResourceRecordView) -> Seq<u8> {
    label_enc(r.name) + u16_bytes(resource_type_code(data_typ(r.data))) + u16_bytes(
        resource_class_code(r.class),
    ) + u32_bytes(r.time_to_live) + u16_bytes(rdata_enc(r.data).len() as u16) + rdata_enc(r.data)
}

/// The record can be written: its name and payload encode, and the payload
/// fits the 16-bit length field.
pub open spec fn record_encodable(r: ResourceRecordView) -> bool {
    label_encodable(r.name) && rdata_encodable(r.data) && rdata_enc(r.data).len() <= 0xffff
}

/// What encoding a whole record returns: its wire bytes, or the first
/// error from the name, the payload, or an oversized payload.
pub open spec fn spec_encode_record(r: ResourceRecordView) -> Result<Seq<u8>, ResourceRecordError> {
    match spec_encode_label(r.name) {
        Err(e) => Err(ResourceRecordError::Label(e)),
        Ok(nb) => match spec_encode_rdata(r.data) {
            Err(e) => Err(ResourceRecordError::Data(e)),
            Ok(db) => {
                if db.len() > 0xffff {
                    Err(ResourceRecordError::DataTooLarge(db.len() as usize))
                } else {
                    Ok(
                        nb + u16_bytes(resource_type_code(data_typ(r.data))) + u16_bytes(
                            resource_class_code(r.class),
                        ) + u32_bytes(r.time_to_live) + u16_bytes(db.len() as u16) + db,
                    )
                }
            },
        },
    }
}

/// Encoding a record succeeds exactly when it is encodable, and then
/// writes `record_enc`.
pub proof fn lemma_encode_record_ok(r: ResourceRecordView)
    ensures
        (spec_encode_record(r) is Ok) <==> record_encodable(r),
        spec_encode_record(r) matches Ok(b) ==> b == record_enc(r),
{
    lemma_encode_label_ok(r.name);
    lemma_encode_rdata_ok(r.data);
}

/// An encode result with the produced buffer taken to its view.
pub open spec fn rdata_enc_result_view(r: Result<Vec<u8>, ResourceDataError>) -> Result<
    Seq<u8>,
    ResourceDataError,
> {
    match r {
        Ok(v) => Ok(v@),
        Err(e) => Err(e),
    }
}

/// An encode result with the produced buffer taken to its view.
pub open spec fn record_enc_result_view(r: Result<Vec<u8>, ResourceRecordError>) -> Result<
    Seq<u8>,
    ResourceRecordError,
> {
    match r {
        Ok(v) => Ok(v@),
        Err(e) => Err(e),
    }
}

/// Encodes a payload that is a single domain name.
fn encode_name_data(l: &Label) -> (r: Result<Vec<u8>, ResourceDataError>)
    ensures
        (match r {
            Ok(v) => spec_encode_label(l@) == Ok::<Seq<u8>, LabelError>(v@),
            Err(e) => (spec_encode_label(l@) matches Err(le) && e == ResourceDataError::Label(le)),
        }),
{
    match l.encode() {
        Ok(v) => Ok(v),
        Err(e) => Err(ResourceDataError::Label(e)),
    }
}

impl ResourceData {
    /// Writes the payload bytes of this record data, without the length
    /// field.  Fails on a name label or character-string over 255 bytes,
    /// and always on the unimplemented WKS payload.
    #[verifier::rlimit(100)]
    pub fn encode(&self) -> (r: Result<Vec<u8>, ResourceDataError>)
        ensures
            rdata_enc_result_view(r) == spec_encode_rdata(self@),
    {
        match self {
            ResourceData::Address(a) => {
                let mut out: Vec<u8> = Vec::new();
                push_u32(&mut out, *a);
                proof {
                    assert(out@ =~= u32_bytes(*a));
                }
                Ok(out)
            },
            ResourceData::NameServer(l) => encode_name_data(l),
            ResourceData::MailDevice(l) => encode_name_data(l),
            ResourceData::MailForward(l) => encode_name_data(l),
            ResourceData::CanonicalName(l) => encode_name_data(l),
            ResourceData::SOA { name, mail, serial, refresh, retry, expire, minimum } => {
                let mut out = match name.encode() {
                    Ok(v) => v,
                    Err(e) => {
                        return Err(ResourceDataError::Label(e));
                    },
                };
                let mb = match mail.encode() {
                    Ok(v) => v,
                    Err(e) => {
                        return Err(ResourceDataError::Label(e));
                    },
                };
                push_bytes(&mut out, mb.as_slice());
                push_u32(&mut out, *serial);
                push_u32(&mut out, *refresh);
                push_u32(&mut out, *retry);
                push_u32(&mut out, *expire);
                push_u32(&mut out, *minimum);
                proof {
                    assert(spec_encode_rdata(self@) is Ok);
                    assert(out@ =~= spec_encode_rdata(self@)->Ok_0);
                }
                Ok(out)
            },
            ResourceData::MailBox(l) => encode_name_data(l),
            ResourceData::MailGroup(l) => encode_name_data(l),
            ResourceData::MailRename(l) => encode_name_data(l),
            ResourceData::Null(bs) => {
                let out = slice_to_vec(bs.as_slice());
                Ok(out)
            },
            ResourceData::WKS { .. } => Err(ResourceDataError::NotImplemented),
            ResourceData::Ptr(l) => encode_name_data(l),
            ResourceData::HostInfo { cpu, os } => {
                let mut out = match cpu.encode() {
                    Ok(v) => v,
                    Err(e) => {
                        return Err(ResourceDataError::Label(e));
                    },
                };
                let ob = match os.encode() {
                    Ok(v) => v,
                    Err(e) => {
                        return Err(ResourceDataError::Label(e));
                    },
                };
                push_bytes(&mut out, ob.as_slice());
                Ok(out)
            },
            ResourceData::MailInfo { mailbox, error_mailbox } => {
                let mut out = match mailbox.encode() {
                    Ok(v) => v,
                    Err(e) => {
                        return Err(ResourceDataError::Label(e));
                    },
                };
                let mb = match error_mailbox.encode() {
                    Ok(v) => v,
                    Err(e) => {
                        return Err(ResourceDataError::Label(e));
                    },
                };
                push_bytes(&mut out, mb.as_slice());
                Ok(out)
            },
            ResourceData::MailExchange { preference, exchange } => {
                let eb = match exchange.encode() {
                    Ok(v) => v,
                    Err(e) => {
                        return Err(ResourceDataError::Label(e));
                    },
                };
                let mut out: Vec<u8> = Vec::new();
                push_u16(&mut out, *preference);
                push_bytes(&mut out, eb.as_slice());
                Ok(out)
            },
            ResourceData::Text(v) => {
                match crate::label::encode_strings(v) {
                    Ok(out) => Ok(out),
                    Err(e) => Err(ResourceDataError::Label(e)),
                }
            },
        }
    }
}

impl ResourceRecord {
    /// Writes the whole record: the name, the type code derived from the
    /// payload, the class code, the time to live, then the payload behind
    /// its computed length.  Fails on a label or character-string over 255
    /// bytes, on the unimplemented WKS payload, and on a payload that does
    /// not fit the 16-bit length field.
    pub fn encode(&self) -> (r: Result<Vec<u8>, ResourceRecordError>)
        ensures
            record_enc_result_view(r) == spec_encode_record(self@),
    {
        let mut out = match self.name.encode() {
            Ok(v) => v,
            Err(e) => {
                return Err(ResourceRecordError::Label(e));
            },
        };
        let db = match self.data.encode() {
            Ok(v) => v,
            Err(e) => {
                return Err(ResourceRecordError::Data(e));
            },
        };
        if db.len() > 0xffff {
            return Err(ResourceRecordError::DataTooLarge(db.len()));
        }
        push_u16(&mut out, self.data.typ().code());
        push_u16(&mut out, self.class.code());
        push_u32(&mut out, self.time_to_live);
        push_u16(&mut out, db.len() as u16);
        push_bytes(&mut out, db.as_slice());
        proof {
            assert(spec_encode_record(self@) is Ok);
            assert(out@ =~= spec_encode_record(self@)->Ok_0);
        }
        Ok(out)
    }
}

/// Character-strings that fill a region read back as themselves.
proof fn lemma_texts_round_trip(ss: Seq<Seq<u8>>)
    requires
        forall|i: int| 0 <= i < ss.len() ==> cs_encodable(#[trigger] ss[i]),
    ensures
        spec_parse_texts(strings_enc(ss)) == Ok::<Seq<Seq<u8>>, LabelError>(ss),
    decreases ss.len(),
{
    if ss.len() == 0 {
        assert(strings_enc(ss) =~= Seq::<u8>::empty());
        assert(ss =~= Seq::<Seq<u8>>::empty());
    } else {
        let s0 = ss[0];
        let dd = ss.drop_first();
        let b = strings_enc(ss);
        assert(b == cs_enc(s0) + strings_enc(dd));
        lemma_character_string_round_trip(s0, strings_enc(dd));
        assert(b.len() > 0);
        assert(b.skip(s0.len() as int + 1) =~= strings_enc(dd));
        assert forall|i: int| 0 <= i < dd.len() implies cs_encodable(#[trigger] dd[i]) by {
            assert(dd[i] == ss[i + 1]);
        }
        lemma_texts_round_trip(dd);
        assert(seq![s0] + dd =~= ss);
    }
}

/// The payload round-trips over the wire: every name in it is unambiguous
/// and every character-string fits, and it is not the unimplemented WKS
/// payload.
pub open spec fn rdata_wire_valid(d: ResourceDataView) -> bool {
    match d {
        ResourceDataView::Address(_) => true,
        ResourceDataView::NameServer(l) => label_unambiguous(l),
        ResourceDataView::MailDevice(l) => label_unambiguous(l),
        ResourceDataView::MailForward(l) => label_unambiguous(l),
        ResourceDataView::CanonicalName(l) => label_unambiguous(l),
        ResourceDataView::SOA { name, mail, .. } => label_unambiguous(name) && label_unambiguous(
            mail,
        ),
        ResourceDataView::MailBox(l) => label_unambiguous(l),
        ResourceDataView::MailGroup(l) => label_unambiguous(l),
        ResourceDataView::MailRename(l) => label_unambiguous(l),
        ResourceDataView::Null(_) => true,
        ResourceDataView::WKS { .. } => false,
        ResourceDataView::Ptr(l) => label_unambiguous(l),
        ResourceDataView::HostInfo { cpu, os } => cs_encodable(cpu) && cs_encodable(os),
        ResourceDataView::MailInfo { mailbox, error_mailbox } => label_unambiguous(mailbox)
            && label_unambiguous(error_mailbox),
        ResourceDataView::MailExchange { exchange, .. } => label_unambiguous(exchange),
        ResourceDataView::Text(ss) => forall|i: int|
            0 <= i < ss.len() ==> cs_encodable(#[trigger] ss[i]),
    }
}

/// Start-of-authority round trip: the two names and the five 32-bit
/// fields read back from the payload region.
#[verifier::rlimit(100)]
proof fn lemma_soa_round_trip(d: ResourceDataView)
    requires
        d is SOA,
        rdata_wire_valid(d),
    ensures
        spec_parse_rdata(ResourceType::SOA, rdata_enc(d)) == Ok::<
            ResourceDataView,
            ResourceDataError,
        >(d),
{
    let b = rdata_enc(d);
    match d {
        ResourceDataView::SOA { name, mail, serial, refresh, retry, expire, minimum } => {
            let ints = u32_bytes(serial) + u32_bytes(refresh) + u32_bytes(retry) + u32_bytes(
                expire,
            ) + u32_bytes(minimum);
            assert(b =~= label_enc(name) + (label_enc(mail) + ints));
            lemma_label_round_trip(name, label_enc(mail) + ints);
            let n1 = label_enc(name).len() as int;
            assert(b.skip(n1) =~= label_enc(mail) + ints);
            lemma_label_round_trip(mail, ints);
            let n2 = label_enc(mail).len() as int;
            let rest = b.skip(n1 + n2);
            assert(rest =~= ints);
            assert(rest.len() == 20);
            lemma_u32_of_bytes(serial);
            lemma_u32_of_bytes(refresh);
            lemma_u32_of_bytes(retry);
            lemma_u32_of_bytes(expire);
            lemma_u32_of_bytes(minimum);
            assert(rest[0] == u32_bytes(serial)[0] && rest[1] == u32_bytes(serial)[1] && rest[2]
                == u32_bytes(serial)[2] && rest[3] == u32_bytes(serial)[3]);
            assert(rest[4] == u32_bytes(refresh)[0] && rest[5] == u32_bytes(refresh)[1] && rest[6]
                == u32_bytes(refresh)[2] && rest[7] == u32_bytes(refresh)[3]);
            assert(rest[8] == u32_bytes(retry)[0] && rest[9] == u32_bytes(retry)[1] && rest[10]
                == u32_bytes(retry)[2] && rest[11] == u32_bytes(retry)[3]);
            assert(rest[12] == u32_bytes(expire)[0] && rest[13] == u32_bytes(expire)[1] && rest[14]
                == u32_bytes(expire)[2] && rest[15] == u32_bytes(expire)[3]);
            assert(rest[16] == u32_bytes(minimum)[0] && rest[17] == u32_bytes(minimum)[1]
                && rest[18] == u32_bytes(minimum)[2] && rest[19] == u32_bytes(minimum)[3]);
        },
        _ => {},
    }
}

/// Payload round trip: parsing a wire-valid payload's bytes under its own
/// type yields the payload again.
#[verifier::rlimit(100)]
pub proof fn lemma_rdata_round_trip(d: ResourceDataView)
    requires
        rdata_wire_valid(d),
    ensures
        spec_parse_rdata(data_typ(d), rdata_enc(d)) == Ok::<ResourceDataView, ResourceDataError>(d),
{
    let b = rdata_enc(d);
    match d {
        ResourceDataView::Address(a) => {
            lemma_u32_of_bytes(a);
        },
        ResourceDataView::NameServer(l) => {
            lemma_name_data_round_trip(l);
        },
        ResourceDataView::MailDevice(l) => {
            lemma_name_data_round_trip(l);
        },
        ResourceDataView::MailForward(l) => {
            lemma_name_data_round_trip(l);
        },
        ResourceDataView::CanonicalName(l) => {
            lemma_name_data_round_trip(l);
        },
        ResourceDataView::SOA { .. } => {
            lemma_soa_round_trip(d);
        },
        ResourceDataView::MailBox(l) => {
            lemma_name_data_round_trip(l);
        },
        ResourceDataView::MailGroup(l) => {
            lemma_name_data_round_trip(l);
        },
        ResourceDataView::MailRename(l) => {
            lemma_name_data_round_trip(l);
        },
        ResourceDataView::Null(_) => {},
        ResourceDataView::WKS { .. } => {},
        ResourceDataView::Ptr(l) => {
            lemma_name_data_round_trip(l);
        },
        ResourceDataView::HostInfo { cpu, os } => {
            assert(b =~= cs_enc(cpu) + cs_enc(os));
            lemma_character_string_round_trip(cpu, cs_enc(os));
            assert(b.skip(cpu.len() as int + 1) =~= cs_enc(os) + Seq::<u8>::empty());
            lemma_character_string_round_trip(os, Seq::empty());
        },
        ResourceDataView::MailInfo { mailbox, error_mailbox } => {
            assert(b =~= label_enc(mailbox) + label_enc(error_mailbox));
            lemma_label_round_trip(mailbox, label_enc(error_mailbox));
            let n1 = label_enc(mailbox).len() as int;
            assert(b.skip(n1) =~= label_enc(error_mailbox) + Seq::<u8>::empty());
            lemma_label_round_trip(error_mailbox, Seq::empty());
        },
        ResourceDataView::MailExchange { preference, exchange } => {
            assert(b =~= u16_bytes(preference) + label_enc(exchange));
            assert(b.len() >= 2);
            assert(b[0] == u16_bytes(preference)[0] && b[1] == u16_bytes(preference)[1]);
            lemma_u16_of_bytes(preference);
            assert(b.skip(2) =~= label_enc(exchange) + Seq::<u8>::empty());
            lemma_label_round_trip(exchange, Seq::empty());
        },
        ResourceDataView::Text(ss) => {
            lemma_texts_round_trip(ss);
        },
    }
}

/// A single-name payload region reads back as the name.
proof fn lemma_name_data_round_trip(l: LabelView)
    requires
        label_unambiguous(l),
    ensures
        spec_parse_label(label_enc(l)) == Ok::<(LabelView, int), LabelError>(
            (l, label_enc(l).len() as int),
        ),
{
    lemma_label_round_trip(l, Seq::empty());
    assert(label_enc(l) + Seq::<u8>::empty() =~= label_enc(l));
}

/// A wire-valid payload is in particular encodable.
pub proof fn lemma_rdata_wire_valid_encodable(d: ResourceDataView)
    ensures
        rdata_wire_valid(d) ==> rdata_encodable(d),
{
    if rdata_wire_valid(d) {
        match d {
            ResourceDataView::NameServer(l) => crate::label::lemma_unambiguous_encodable(l),
            ResourceDataView::MailDevice(l) => crate::label::lemma_unambiguous_encodable(l),
            ResourceDataView::MailForward(l) => crate::label::lemma_unambiguous_encodable(l),
            ResourceDataView::CanonicalName(l) => crate::label::lemma_unambiguous_encodable(l),
            ResourceDataView::SOA { name, mail, .. } => {
                crate::label::lemma_unambiguous_encodable(name);
                crate::label::lemma_unambiguous_encodable(mail);
            },
            ResourceDataView::MailBox(l) => crate::label::lemma_unambiguous_encodable(l),
            ResourceDataView::MailGroup(l) => crate::label::lemma_unambiguous_encodable(l),
            ResourceDataView::MailRename(l) => crate::label::lemma_unambiguous_encodable(l),
            ResourceDataView::Ptr(l) => crate::label::lemma_unambiguous_encodable(l),
            ResourceDataView::MailInfo { mailbox, error_mailbox } => {
                crate::label::lemma_unambiguous_encodable(mailbox);
                crate::label::lemma_unambiguous_encodable(error_mailbox);
            },
            ResourceDataView::MailExchange { exchange, .. } => {
                crate::label::lemma_unambiguous_encodable(exchange)
            },
            _ => {},
        }
    }
}

/// The whole record round-trips over the wire.
pub open spec fn record_wire_valid(r: ResourceRecordView) -> bool {
    label_unambiguous(r.name) && rdata_wire_valid(r.data) && rdata_enc(r.data).len() <= 0xffff
}

/// Record round trip: parsing what a wire-valid record encodes to yields
/// the record again, whatever follows it.
pub proof fn lemma_record_round_trip(r: ResourceRecordView, rest: Seq<u8>)
    requires
        record_wire_valid(r),
    ensures
        spec_parse_resource_record(record_enc(r) + rest) == Ok::<
            (ResourceRecordView, int),
            ResourceRecordError,
        >((r, record_enc(r).len() as int)),
{
    let tc = resource_type_code(data_typ(r.data));
    let cc = resource_class_code(r.class);
    let db = rdata_enc(r.data);
    let ln = db.len() as u16;
    let tail = u16_bytes(tc) + u16_bytes(cc) + u32_bytes(r.time_to_live) + u16_bytes(ln) + db
        + rest;
    let b = record_enc(r) + rest;
    assert(b =~= label_enc(r.name) + tail);
    lemma_label_round_trip(r.name, tail);
    let n = label_enc(r.name).len() as int;
    let after = b.skip(n);
    assert(after =~= tail);
    assert(after.len() >= 10 + db.len());
    assert(after[0] == u16_bytes(tc)[0] && after[1] == u16_bytes(tc)[1]);
    assert(after[2] == u16_bytes(cc)[0] && after[3] == u16_bytes(cc)[1]);
    assert(after[4] == u32_bytes(r.time_to_live)[0] && after[5] == u32_bytes(r.time_to_live)[1]
        && after[6] == u32_bytes(r.time_to_live)[2] && after[7] == u32_bytes(r.time_to_live)[3]);
    assert(after[8] == u16_bytes(ln)[0] && after[9] == u16_bytes(ln)[1]);
    lemma_u16_of_bytes(tc);
    lemma_u16_of_bytes(cc);
    lemma_u32_of_bytes(r.time_to_live);
    lemma_u16_of_bytes(ln);
    lemma_type_class_codes(data_typ(r.data), crate::type_class::QuestionType::A, r.class,
        crate::type_class::QuestionClass::IN);
    assert(after.subrange(10, 10 + db.len() as int) =~= db);
    lemma_rdata_round_trip(r.data);
    assert(spec_parse_resource_record(b) matches Ok(t) && t.0 =~= r && t.1 == record_enc(r).len());
}

} // verus!
