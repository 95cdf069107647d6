//! Record type and class codes.

use crate::error::DnsError;
use vstd::prelude::*;
use vstd::std_specs::convert::TryFromSpecImpl;

verus! {

/// How decoding treats a type or class code that has no named variant.
#[derive(Clone, Copy, Debug, PartialEq, Eq, Structural)]
pub enum DecodeMode {
    /// The code is kept as `Unknown`, so that the record can be passed on.
    Lenient,
    /// The record is refused.
    Strict,
}

/// What a decoder in the given mode says of a record's type and class: in
/// strict mode an unrecognized type is refused, then an unrecognized class.
pub open spec fn check_codes(mode: DecodeMode, rtype: ResourceType, rclass: ResourceClass) -> Result<
    (),
    DnsError,
> {
    if mode == DecodeMode::Strict && rtype is Unknown {
        Err(DnsError::UnsupportedRecordType)
    } else if mode == DecodeMode::Strict && rclass is Unknown {
        Err(DnsError::UnsupportedRecordClass)
    } else {
        Ok(())
    }
}

/// Checks a decoded record's type and class against the mode.
pub fn codes_accepted(mode: DecodeMode, rtype: ResourceType, rclass: ResourceClass) -> (result:
    Result<(), DnsError>)
    ensures
        result == check_codes(mode, rtype, rclass),
{
    match mode {
        DecodeMode::Lenient => Ok(()),
        DecodeMode::Strict => {
            if !rtype.is_recognized() {
                Err(DnsError::UnsupportedRecordType)
            } else if !rclass.is_recognized() {
                Err(DnsError::UnsupportedRecordClass)
            } else {
                Ok(())
            }
        },
    }
}

/// The type of a resource record. The named variants are the recognized
/// codes; `Unknown` carries any other code unchanged, so that a record
/// which this library does not understand can still be passed on.
#[derive(Clone, Copy, Debug, PartialEq, Eq, Structural)]
pub enum ResourceType {
    A,
    NS,
    MD,
    MF,
    CNAME,
    SOA,
    MB,
    MG,
    MR,
    NULL,
    WKS,
    PTR,
    HINFO,
    MINFO,
    MX,
    TXT,
    Unknown(u16),
}

impl ResourceType {
    /// The code is one of the recognized type codes, 1 to 16.
    pub open spec fn recognized(code: u16) -> bool {
        1 <= code <= 16
    }

    /// The type's code on the wire.
    pub open spec fn spec_code(self) -> u16 {
        match self {
            ResourceType::A => 1,
            ResourceType::NS => 2,
            ResourceType::MD => 3,
            ResourceType::MF => 4,
            ResourceType::CNAME => 5,
            ResourceType::SOA => 6,
            ResourceType::MB => 7,
            ResourceType::MG => 8,
            ResourceType::MR => 9,
            ResourceType::NULL => 10,
            ResourceType::WKS => 11,
            ResourceType::PTR => 12,
            ResourceType::HINFO => 13,
            ResourceType::MINFO => 14,
            ResourceType::MX => 15,
            ResourceType::TXT => 16,
            ResourceType::Unknown(code) => code,
        }
    }

    /// The type that a code stands for: its named variant where the code is
    /// recognized, `Unknown` with the code otherwise.
    pub open spec fn spec_from_code(code: u16) -> ResourceType {
        if code == 1 {
            ResourceType::A
        } else if code == 2 {
            ResourceType::NS
        } else if code == 3 {
            ResourceType::MD
        } else if code == 4 {
            ResourceType::MF
        } else if code == 5 {
            ResourceType::CNAME
        } else if code == 6 {
            ResourceType::SOA
        } else if code == 7 {
            ResourceType::MB
        } else if code == 8 {
            ResourceType::MG
        } else if code == 9 {
            ResourceType::MR
        } else if code == 10 {
            ResourceType::NULL
        } else if code == 11 {
            ResourceType::WKS
        } else if code == 12 {
            ResourceType::PTR
        } else if code == 13 {
            ResourceType::HINFO
        } else if code == 14 {
            ResourceType::MINFO
        } else if code == 15 {
            ResourceType::MX
        } else if code == 16 {
            ResourceType::TXT
        } else {
            ResourceType::Unknown(code)
        }
    }

    /// `Unknown` is used only for codes that have no named variant, so that
    /// each code has exactly one representation.
    pub open spec fn canonical(self) -> bool {
        self matches ResourceType::Unknown(code) ==> !ResourceType::recognized(code)
    }

    /// The type's code on the wire.
    pub fn code(self) -> (code: u16)
        ensures
            code == self.spec_code(),
    {
        match self {
            ResourceType::A => 1,
            ResourceType::NS => 2,
            ResourceType::MD => 3,
            ResourceType::MF => 4,
            ResourceType::CNAME => 5,
            ResourceType::SOA => 6,
            ResourceType::MB => 7,
            ResourceType::MG => 8,
            ResourceType::MR => 9,
            ResourceType::NULL => 10,
            ResourceType::WKS => 11,
            ResourceType::PTR => 12,
            ResourceType::HINFO => 13,
            ResourceType::MINFO => 14,
            ResourceType::MX => 15,
            ResourceType::TXT => 16,
            ResourceType::Unknown(code) => code,
        }
    }

    /// The type that a code stands for. No code is refused: one without a
    /// named variant is kept as `Unknown`.
    pub fn from_code(code: u16) -> (value: ResourceType)
        ensures
            value == ResourceType::spec_from_code(code),
            value.canonical(),
            value.spec_code() == code,
    {
        match ResourceType::try_from(code) {
            Ok(value) => value,
            Err(_) => ResourceType::Unknown(code),
        }
    }

    /// The type is one of the named variants.
    pub fn is_recognized(self) -> (yes: bool)
        ensures
            yes == !(self is Unknown),
    {
        match self {
            ResourceType::Unknown(_) => false,
            _ => true,
        }
    }

    /// A type read from its own code is the same type if and only if it
    /// is canonical.
    pub proof fn lemma_code_round_trip(self)
        ensures
            ResourceType::spec_from_code(self.spec_code()) == self <==> self.canonical(),
    {
    }
}

impl TryFrom<u16> for ResourceType {
    type Error = DnsError;

    /// The named variant of a recognized code; any other code is an error.
    fn try_from(value: u16) -> (result: Result<ResourceType, DnsError>) {
        match value {
            1 => Ok(ResourceType::A),
            2 => Ok(ResourceType::NS),
            3 => Ok(ResourceType::MD),
            4 => Ok(ResourceType::MF),
            5 => Ok(ResourceType::CNAME),
            6 => Ok(ResourceType::SOA),
            7 => Ok(ResourceType::MB),
            8 => Ok(ResourceType::MG),
            9 => Ok(ResourceType::MR),
            10 => Ok(ResourceType::NULL),
            11 => Ok(ResourceType::WKS),
            12 => Ok(ResourceType::PTR),
            13 => Ok(ResourceType::HINFO),
            14 => Ok(ResourceType::MINFO),
            15 => Ok(ResourceType::MX),
            16 => Ok(ResourceType::TXT),
            _ => Err(DnsError::UnsupportedRecordType),
        }
    }
}

impl TryFromSpecImpl<u16> for ResourceType {
    open spec fn obeys_try_from_spec() -> bool {
        true
    }

    open spec fn try_from_spec(value: u16) -> Result<ResourceType, DnsError> {
        if ResourceType::recognized(value) {
            Ok(ResourceType::spec_from_code(value))
        } else {
            Err(DnsError::UnsupportedRecordType)
        }
    }
}

/// The class of a resource record. The named variants are the recognized
/// codes; `Unknown` carries any other code unchanged.
#[derive(Clone, Copy, Debug, PartialEq, Eq, Structural)]
pub enum ResourceClass {
    IN,
    CS,
    CH,
    HS,
    Unknown(u16),
}

impl ResourceClass {
    /// The code is one of the recognized class codes, 1 to 4.
    pub open spec fn recognized(code: u16) -> bool {
        1 <= code <= 4
    }

    /// The class's code on the wire.
    pub open spec fn spec_code(self) -> u16 {
        match self {
            ResourceClass::IN => 1,
            ResourceClass::CS => 2,
            ResourceClass::CH => 3,
            ResourceClass::HS => 4,
            ResourceClass::Unknown(code) => code,
        }
    }

    /// The class that a code stands for: its named variant where the code is
    /// recognized, `Unknown` with the code otherwise.
    pub open spec fn spec_from_code(code: u16) -> ResourceClass {
        if code == 1 {
            ResourceClass::IN
        } else if code == 2 {
            ResourceClass::CS
        } else if code == 3 {
            ResourceClass::CH
        } else if code == 4 {
            ResourceClass::HS
        } else {
            ResourceClass::Unknown(code)
        }
    }

    /// `Unknown` is used only for codes that have no named variant, so that
    /// each code has exactly one representation.
    pub open spec fn canonical(self) -> bool {
        self matches ResourceClass::Unknown(code) ==> !ResourceClass::recognized(code)
    }

    /// The class's code on the wire.
    pub fn code(self) -> (code: u16)
        ensures
            code == self.spec_code(),
    {
        match self {
            ResourceClass::IN => 1,
            ResourceClass::CS => 2,
            ResourceClass::CH => 3,
            ResourceClass::HS => 4,
            ResourceClass::Unknown(code) => code,
        }
    }

    /// The class that a code stands for. No code is refused: one without a
    /// named variant is kept as `Unknown`.
    pub fn from_code(code: u16) -> (value: ResourceClass)
        ensures
            value == ResourceClass::spec_from_code(code),
            value.canonical(),
            value.spec_code() == code,
    {
        match ResourceClass::try_from(code) {
            Ok(value) => value,
            Err(_) => ResourceClass::Unknown(code),
        }
    }

    /// The class is one of the named variants.
    pub fn is_recognized(self) -> (yes: bool)
        ensures
            yes == !(self is Unknown),
    {
        match self {
            ResourceClass::Unknown(_) => false,
            _ => true,
        }
    }

    /// A class read from its own code is the same class if and only if it
    /// is canonical.
    pub proof fn lemma_code_round_trip(self)
        ensures
            ResourceClass::spec_from_code(self.spec_code()) == self <==> self.canonical(),
    {
    }
}

impl TryFrom<u16> for ResourceClass {
    type Error = DnsError;

    /// The named variant of a recognized code; any other code is an error.
    fn try_from(value: u16) -> (result: Result<ResourceClass, DnsError>) {
        match value {
            1 => Ok(ResourceClass::IN),
            2 => Ok(ResourceClass::CS),
            3 => Ok(ResourceClass::CH),
            4 => Ok(ResourceClass::HS),
            _ => Err(DnsError::UnsupportedRecordClass),
        }
    }
}

impl TryFromSpecImpl<u16> for ResourceClass {
    open spec fn obeys_try_from_spec() -> bool {
        true
    }

    open spec fn try_from_spec(value: u16) -> Result<ResourceClass, DnsError> {
        if ResourceClass::recognized(value) {
            Ok(ResourceClass::spec_from_code(value))
        } else {
            Err(DnsError::UnsupportedRecordClass)
        }
    }
}

} // verus!
