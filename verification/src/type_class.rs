//! The registries of record types and classes, and their 16-bit wire codes.
use vstd::prelude::*;

verus! {

/// The registered resource-record types.
#[derive(Debug, Clone, Copy, PartialEq, Eq, Structural)]
pub enum ResourceType {
    /// A host address
    A,
    /// An authoritative name server
    NS,
    /// A mail destination (obsolete, use `MX`)
    MD,
    /// A mail forwarder (obsolete, use `MX`)
    MF,
    /// The canonical name for an alias
    CNAME,
    /// Marks the start of a zone of authority
    SOA,
    /// A mailbox domain name (experimental)
    MB,
    /// A mail group member (experimental)
    MG,
    /// A mail rename domain name (experimental)
    MR,
    /// A null record (experimental)
    NULL,
    /// A well known service description
    WKS,
    /// A domain name pointer
    PTR,
    /// Host information
    HINFO,
    /// Mailbox or mail list information
    MINFO,
    /// Mail exchange
    MX,
    /// Text strings
    TXT,
}

/// The values valid in a question: every resource-record type, and four more
/// general codes that match more than one kind of record.
#[derive(Debug, Clone, Copy, PartialEq, Eq, Structural)]
pub enum QuestionType {
    /// A host address
    A,
    /// An authoritative name server
    NS,
    /// A mail destination (obsolete, use `MX`)
    MD,
    /// A mail forwarder (obsolete, use `MX`)
    MF,
    /// The canonical name for an alias
    CNAME,
    /// Marks the start of a zone of authority
    SOA,
    /// A mailbox domain name (experimental)
    MB,
    /// A mail group member (experimental)
    MG,
    /// A mail rename domain name (experimental)
    MR,
    /// A null record (experimental)
    NULL,
    /// A well known service description
    WKS,
    /// A domain name pointer
    PTR,
    /// Host information
    HINFO,
    /// Mailbox or mail list information
    MINFO,
    /// Mail exchange
    MX,
    /// Text strings
    TXT,
    /// A request for a transfer of an entire zone
    AXFR,
    /// A request for mailbox-related records (MB, MG or MR)
    MAILB,
    /// A request for mail agent records (obsolete, see `MX`)
    MAILA,
    /// A request for all records
    ALL,
}

/// The registered classes of a resource record.
#[derive(Debug, Clone, Copy, PartialEq, Eq, Structural)]
pub enum ResourceClass {
    /// The Internet
    IN,
    /// The CSNET class (obsolete)
    CS,
    /// The CHAOS class
    CH,
    /// Hesiod
    HS,
}

/// The classes valid in a question: every resource-record class, and a
/// wildcard that matches any of them.
#[derive(Debug, Clone, Copy, PartialEq, Eq, Structural)]
pub enum QuestionClass {
    /// The Internet
    IN,
    /// The CSNET class (obsolete)
    CS,
    /// The CHAOS class
    CH,
    /// Hesiod
    HS,
    /// A request for all classes
    Any,
}

/// No type has been registered with the carried code.
#[derive(Debug, Clone, Copy, PartialEq, Eq, Structural)]
pub struct UnregisteredType(pub u16);

/// No class has been registered with the carried code.
#[derive(Debug, Clone, Copy, PartialEq, Eq, Structural)]
pub struct UnregisteredClass(pub u16);

/// The wire code of a resource-record type.
pub open spec fn resource_type_code(t: ResourceType) -> u16 {
    match t {
        ResourceType::A => 1,
        ResourceType::NS => 2,
        ResourceType::MD => 3,
        ResourceType::MF => 4,
        ResourceType::CNAME => 5,
        ResourceType::SOA => 6,
        ResourceType::MB => 7,
        ResourceType::MG => 8,
        ResourceType::MR => 9,
        ResourceType::NULL => 10,
        ResourceType::WKS => 11,
        ResourceType::PTR => 12,
        ResourceType::HINFO => 13,
        ResourceType::MINFO => 14,
        ResourceType::MX => 15,
        ResourceType::TXT => 16,
    }
}

/// The resource-record type a wire code denotes, if any is registered.
pub open spec fn resource_type_of(code: u16) -> Result<ResourceType, UnregisteredType> {
    if code == 1 {
        Ok(ResourceType::A)
    } else if code == 2 {
        Ok(ResourceType::NS)
    } else if code == 3 {
        Ok(ResourceType::MD)
    } else if code == 4 {
        Ok(ResourceType::MF)
    } else if code == 5 {
        Ok(ResourceType::CNAME)
    } else if code == 6 {
        Ok(ResourceType::SOA)
    } else if code == 7 {
        Ok(ResourceType::MB)
    } else if code == 8 {
        Ok(ResourceType::MG)
    } else if code == 9 {
        Ok(ResourceType::MR)
    } else if code == 10 {
        Ok(ResourceType::NULL)
    } else if code == 11 {
        Ok(ResourceType::WKS)
    } else if code == 12 {
        Ok(ResourceType::PTR)
    } else if code == 13 {
        Ok(ResourceType::HINFO)
    } else if code == 14 {
        Ok(ResourceType::MINFO)
    } else if code == 15 {
        Ok(ResourceType::MX)
    } else if code == 16 {
        Ok(ResourceType::TXT)
    } else {
        Err(UnregisteredType(code))
    }
}

/// The wire code of a question type.
pub open spec fn question_type_code(t: QuestionType) -> u16 {
    match t {
        QuestionType::A => 1,
        QuestionType::NS => 2,
        QuestionType::MD => 3,
        QuestionType::MF => 4,
        QuestionType::CNAME => 5,
        QuestionType::SOA => 6,
        QuestionType::MB => 7,
        QuestionType::MG => 8,
        QuestionType::MR => 9,
        QuestionType::NULL => 10,
        QuestionType::WKS => 11,
        QuestionType::PTR => 12,
        QuestionType::HINFO => 13,
        QuestionType::MINFO => 14,
        QuestionType::MX => 15,
        QuestionType::TXT => 16,
        QuestionType::AXFR => 252,
        QuestionType::MAILB => 253,
        QuestionType::MAILA => 254,
        QuestionType::ALL => 255,
    }
}

/// The question type a wire code denotes, if any is registered.
pub open spec fn question_type_of(code: u16) -> Result<QuestionType, UnregisteredType> {
    if code == 252 {
        Ok(QuestionType::AXFR)
    } else if code == 253 {
        Ok(QuestionType::MAILB)
    } else if code == 254 {
        Ok(QuestionType::MAILA)
    } else if code == 255 {
        Ok(QuestionType::ALL)
    } else {
        match resource_type_of(code) {
            Ok(t) => Ok(question_type_widen(t)),
            Err(e) => Err(e),
        }
    }
}

/// The question type that asks exactly for one resource-record type.
pub open spec fn question_type_widen(t: ResourceType) -> QuestionType {
    match t {
        ResourceType::A => QuestionType::A,
        ResourceType::NS => QuestionType::NS,
        ResourceType::MD => QuestionType::MD,
        ResourceType::MF => QuestionType::MF,
        ResourceType::CNAME => QuestionType::CNAME,
        ResourceType::SOA => QuestionType::SOA,
        ResourceType::MB => QuestionType::MB,
        ResourceType::MG => QuestionType::MG,
        ResourceType::MR => QuestionType::MR,
        ResourceType::NULL => QuestionType::NULL,
        ResourceType::WKS => QuestionType::WKS,
        ResourceType::PTR => QuestionType::PTR,
        ResourceType::HINFO => QuestionType::HINFO,
        ResourceType::MINFO => QuestionType::MINFO,
        ResourceType::MX => QuestionType::MX,
        ResourceType::TXT => QuestionType::TXT,
    }
}

/// The wire code of a resource-record class.
pub open spec fn resource_class_code(c: ResourceClass) -> u16 {
    match c {
        ResourceClass::IN => 1,
        ResourceClass::CS => 2,
        ResourceClass::CH => 3,
        ResourceClass::HS => 4,
    }
}

/// The resource-record class a wire code denotes, if any is registered.
pub open spec fn resource_class_of(code: u16) -> Result<ResourceClass, UnregisteredClass> {
    if code == 1 {
        Ok(ResourceClass::IN)
    } else if code == 2 {
        Ok(ResourceClass::CS)
    } else if code == 3 {
        Ok(ResourceClass::CH)
    } else if code == 4 {
        Ok(ResourceClass::HS)
    } else {
        Err(UnregisteredClass(code))
    }
}

/// The wire code of a question class.
pub open spec fn question_class_code(c: QuestionClass) -> u16 {
    match c {
        QuestionClass::IN => 1,
        QuestionClass::CS => 2,
        QuestionClass::CH => 3,
        QuestionClass::HS => 4,
        QuestionClass::Any => 255,
    }
}

/// The question class a wire code denotes, if any is registered.
pub open spec fn question_class_of(code: u16) -> Result<QuestionClass, UnregisteredClass> {
    if code == 1 {
        Ok(QuestionClass::IN)
    } else if code == 2 {
        Ok(QuestionClass::CS)
    } else if code == 3 {
        Ok(QuestionClass::CH)
    } else if code == 4 {
        Ok(QuestionClass::HS)
    } else if code == 255 {
        Ok(QuestionClass::Any)
    } else {
        Err(UnregisteredClass(code))
    }
}

impl ResourceType {
    /// The wire code of this type.
    pub fn code(self) -> (code: u16)
        ensures
            code == resource_type_code(self),
    {
        match self {
            ResourceType::A => 1,
            ResourceType::NS => 2,
            ResourceType::MD => 3,
            ResourceType::MF => 4,
            ResourceType::CNAME => 5,
            ResourceType::SOA => 6,
            ResourceType::MB => 7,
            ResourceType::MG => 8,
            ResourceType::MR => 9,
            ResourceType::NULL => 10,
            ResourceType::WKS => 11,
            ResourceType::PTR => 12,
            ResourceType::HINFO => 13,
            ResourceType::MINFO => 14,
            ResourceType::MX => 15,
            ResourceType::TXT => 16,
        }
    }

    /// Looks a wire code up in the registry of resource-record types.
    pub fn from_code(code: u16) -> (r: Result<ResourceType, UnregisteredType>)
        ensures
            r == resource_type_of(code),
    {
        match code {
            1 => Ok(ResourceType::A),
            2 => Ok(ResourceType::NS),
            3 => Ok(ResourceType::MD),
            4 => Ok(ResourceType::MF),
            5 => Ok(ResourceType::CNAME),
            6 => Ok(ResourceType::SOA),
            7 => Ok(ResourceType::MB),
            8 => Ok(ResourceType::MG),
            9 => Ok(ResourceType::MR),
            10 => Ok(ResourceType::NULL),
            11 => Ok(ResourceType::WKS),
            12 => Ok(ResourceType::PTR),
            13 => Ok(ResourceType::HINFO),
            14 => Ok(ResourceType::MINFO),
            15 => Ok(ResourceType::MX),
            16 => Ok(ResourceType::TXT),
            _ => Err(UnregisteredType(code)),
        }
    }
}

impl QuestionType {
    /// The wire code of this question type.
    pub fn code(self) -> (code: u16)
        ensures
            code == question_type_code(self),
    {
        match self {
            QuestionType::A => 1,
            QuestionType::NS => 2,
            QuestionType::MD => 3,
            QuestionType::MF => 4,
            QuestionType::CNAME => 5,
            QuestionType::SOA => 6,
            QuestionType::MB => 7,
            QuestionType::MG => 8,
            QuestionType::MR => 9,
            QuestionType::NULL => 10,
            QuestionType::WKS => 11,
            QuestionType::PTR => 12,
            QuestionType::HINFO => 13,
            QuestionType::MINFO => 14,
            QuestionType::MX => 15,
            QuestionType::TXT => 16,
            QuestionType::AXFR => 252,
            QuestionType::MAILB => 253,
            QuestionType::MAILA => 254,
            QuestionType::ALL => 255,
        }
    }

    /// Looks a wire code up in the registry of question types.
    pub fn from_code(code: u16) -> (r: Result<QuestionType, UnregisteredType>)
        ensures
            r == question_type_of(code),
    {
        match code {
            1 => Ok(QuestionType::A),
            2 => Ok(QuestionType::NS),
            3 => Ok(QuestionType::MD),
            4 => Ok(QuestionType::MF),
            5 => Ok(QuestionType::CNAME),
            6 => Ok(QuestionType::SOA),
            7 => Ok(QuestionType::MB),
            8 => Ok(QuestionType::MG),
            9 => Ok(QuestionType::MR),
            10 => Ok(QuestionType::NULL),
            11 => Ok(QuestionType::WKS),
            12 => Ok(QuestionType::PTR),
            13 => Ok(QuestionType::HINFO),
            14 => Ok(QuestionType::MINFO),
            15 => Ok(QuestionType::MX),
            16 => Ok(QuestionType::TXT),
            252 => Ok(QuestionType::AXFR),
            253 => Ok(QuestionType::MAILB),
            254 => Ok(QuestionType::MAILA),
            255 => Ok(QuestionType::ALL),
            _ => Err(UnregisteredType(code)),
        }
    }
}

impl ResourceClass {
    /// The wire code of this class.
    pub fn code(self) -> (code: u16)
        ensures
            code == resource_class_code(self),
    {
        match self {
            ResourceClass::IN => 1,
            ResourceClass::CS => 2,
            ResourceClass::CH => 3,
            ResourceClass::HS => 4,
        }
    }

    /// Looks a wire code up in the registry of resource-record classes.
    pub fn from_code(code: u16) -> (r: Result<ResourceClass, UnregisteredClass>)
        ensures
            r == resource_class_of(code),
    {
        match code {
            1 => Ok(ResourceClass::IN),
            2 => Ok(ResourceClass::CS),
            3 => Ok(ResourceClass::CH),
            4 => Ok(ResourceClass::HS),
            _ => Err(UnregisteredClass(code)),
        }
    }
}

impl QuestionClass {
    /// The wire code of this question class.
    pub fn code(self) -> (code: u16)
        ensures
            code == question_class_code(self),
    {
        match self {
            QuestionClass::IN => 1,
            QuestionClass::CS => 2,
            QuestionClass::CH => 3,
            QuestionClass::HS => 4,
            QuestionClass::Any => 255,
        }
    }

    /// Looks a wire code up in the registry of question classes.
    pub fn from_code(code: u16) -> (r: Result<QuestionClass, UnregisteredClass>)
        ensures
            r == question_class_of(code),
    {
        match code {
            1 => Ok(QuestionClass::IN),
            2 => Ok(QuestionClass::CS),
            3 => Ok(QuestionClass::CH),
            4 => Ok(QuestionClass::HS),
            255 => Ok(QuestionClass::Any),
            _ => Err(UnregisteredClass(code)),
        }
    }
}

/// Looking a type's own code up finds the type again: the registries are
/// consistent in both directions.
pub proof fn lemma_type_class_codes(t: ResourceType, q: QuestionType, c: ResourceClass,
    d: QuestionClass)
    ensures
        resource_type_of(resource_type_code(t)) == Ok::<ResourceType, UnregisteredType>(t),
        question_type_of(question_type_code(q)) == Ok::<QuestionType, UnregisteredType>(q),
        resource_class_of(resource_class_code(c)) == Ok::<ResourceClass, UnregisteredClass>(c),
        question_class_of(question_class_code(d)) == Ok::<QuestionClass, UnregisteredClass>(d),
{
}

} // verus!
