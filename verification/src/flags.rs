//! The bit-packed flag word of the message header.

use crate::error::DnsError;
use vstd::prelude::*;
use vstd::std_specs::convert::TryFromSpecImpl;

verus! {

/// Whether a message is a query or a reply to one.
#[derive(Clone, Copy, Debug, PartialEq, Eq, Structural)]
pub enum MessageType {
    Query,
    Reply,
}

impl TryFrom<u8> for MessageType {
    type Error = DnsError;

    /// The message type that a one-bit field stands for; a value above 1
    /// does not fit the field.
    fn try_from(value: u8) -> (result: Result<MessageType, DnsError>) {
        if value == 0 {
            Ok(MessageType::Query)
        } else if value == 1 {
            Ok(MessageType::Reply)
        } else {
            Err(DnsError::ValueOutOfRange)
        }
    }
}

impl TryFromSpecImpl<u8> for MessageType {
    open spec fn obeys_try_from_spec() -> bool {
        true
    }

    open spec fn try_from_spec(value: u8) -> Result<MessageType, DnsError> {
        if value == 0 {
            Ok(MessageType::Query)
        } else if value == 1 {
            Ok(MessageType::Reply)
        } else {
            Err(DnsError::ValueOutOfRange)
        }
    }
}

/// The kinds of query that the 4-bit opcode field names.
#[derive(Clone, Copy, Debug, PartialEq, Eq, Structural)]
pub enum MessageOpcode {
    Query,
    IQuery,
    Status,
}

impl MessageOpcode {
    /// The opcode's value on the wire.
    pub open spec fn spec_code(self) -> u8 {
        match self {
            MessageOpcode::Query => 0,
            MessageOpcode::IQuery => 1,
            MessageOpcode::Status => 2,
        }
    }

    /// The opcode's value on the wire.
    pub fn code(self) -> (value: u8)
        ensures
            value == self.spec_code(),
    {
        match self {
            MessageOpcode::Query => 0,
            MessageOpcode::IQuery => 1,
            MessageOpcode::Status => 2,
        }
    }
}

/// The response code of a reply without an error.
pub const RCODE_NO_ERROR: u8 = 0;

/// The response code of a reply to a kind of query that is not implemented.
pub const RCODE_NOT_IMPLEMENTED: u8 = 4;

/// The response code with which a query of the given opcode is answered: no
/// error for a standard query, not implemented for every other kind.
pub fn response_code_for(opcode: u8) -> (code: u8)
    ensures
        opcode == 0 ==> code == RCODE_NO_ERROR,
        opcode != 0 ==> code == RCODE_NOT_IMPLEMENTED,
{
    if opcode == 0 {
        RCODE_NO_ERROR
    } else {
        RCODE_NOT_IMPLEMENTED
    }
}

/// The flag word: bytes 2 and 3 of the header.
#[derive(Clone, Copy, Debug, PartialEq, Eq, Structural)]
pub struct Flags {
    pub is_response: bool,
    /// 4 bits.
    pub opcode: u8,
    pub authoritative: bool,
    pub truncated: bool,
    pub recursion_desired: bool,
    pub recursion_available: bool,
    /// 3 bits.
    pub reserved: u8,
    /// 4 bits.
    pub response_code: u8,
}

/// A one-bit field: 1 if set, 0 if not.
pub open spec fn bit_of(flag: bool) -> u8 {
    if flag {
        1
    } else {
        0
    }
}

impl Flags {
    /// Every subfield fits into its bits.
    pub open spec fn valid(self) -> bool {
        &&& self.opcode <= 15
        &&& self.reserved <= 7
        &&& self.response_code <= 15
    }

    /// Byte 2 of the header.
    pub open spec fn high_byte(self) -> u8 {
        (bit_of(self.is_response) << 7) | (self.opcode << 3) | (bit_of(self.authoritative) << 2) | (
        bit_of(self.truncated) << 1) | bit_of(self.recursion_desired)
    }

    /// Byte 3 of the header.
    pub open spec fn low_byte(self) -> u8 {
        (bit_of(self.recursion_available) << 7) | (self.reserved << 4) | self.response_code
    }

    /// The flag word on the wire.
    pub open spec fn wire(self) -> Seq<u8> {
        seq![self.high_byte(), self.low_byte()]
    }

    /// The flags that bytes 2 and 3 of a header stand for.
    pub open spec fn decode(high: u8, low: u8) -> Flags {
        Flags {
            is_response: high >> 7 == 1,
            opcode: (high >> 3) & 0xf,
            authoritative: (high >> 2) & 1 == 1,
            truncated: (high >> 1) & 1 == 1,
            recursion_desired: high & 1 == 1,
            recursion_available: low >> 7 == 1,
            reserved: (low >> 4) & 7,
            response_code: low & 0xf,
        }
    }

    /// The flags of a fresh message of the given type: every other field is zero.
    pub open spec fn new_spec(qr: MessageType) -> Flags {
        Flags {
            is_response: qr == MessageType::Reply,
            opcode: 0,
            authoritative: false,
            truncated: false,
            recursion_desired: false,
            recursion_available: false,
            reserved: 0,
            response_code: 0,
        }
    }

    /// The flags of a fresh message of the given type: every other field is zero.
    pub fn new(qr: MessageType) -> (flags: Flags)
        ensures
            flags == Flags::new_spec(qr),
            flags.valid(),
    {
        let is_response = match qr {
            MessageType::Query => false,
            MessageType::Reply => true,
        };
        Flags {
            is_response,
            opcode: 0,
            authoritative: false,
            truncated: false,
            recursion_desired: false,
            recursion_available: false,
            reserved: 0,
            response_code: 0,
        }
    }

    /// Whether the flags are those of a query or of a reply.
    pub fn message_type(&self) -> (qr: MessageType)
        ensures
            qr == MessageType::Reply <==> self.is_response,
    {
        if self.is_response {
            MessageType::Reply
        } else {
            MessageType::Query
        }
    }

    /// Packs the flags into bytes 2 and 3 of the header. A subfield that does
    /// not fit into its bits is an error; nothing is truncated.
    pub fn to_bytes(&self) -> (result: Result<[u8; 2], DnsError>)
        ensures
            self.valid() ==> result is Ok && result->Ok_0@ == self.wire(),
            !self.valid() ==> result == Err::<[u8; 2], DnsError>(DnsError::ValueOutOfRange),
    {
        if self.opcode > 15 || self.reserved > 7 || self.response_code > 15 {
            return Err(DnsError::ValueOutOfRange);
        }
        let qr: u8 = if self.is_response { 1 } else { 0 };
        let aa: u8 = if self.authoritative { 1 } else { 0 };
        let tc: u8 = if self.truncated { 1 } else { 0 };
        let rd: u8 = if self.recursion_desired { 1 } else { 0 };
        let ra: u8 = if self.recursion_available { 1 } else { 0 };
        let high: u8 = (qr << 7) | (self.opcode << 3) | (aa << 2) | (tc << 1) | rd;
        let low: u8 = (ra << 7) | (self.reserved << 4) | self.response_code;
        let bytes: [u8; 2] = [high, low];
        assert(bytes@ =~= self.wire());
        Ok(bytes)
    }

    /// Unpacks bytes 2 and 3 of the header. Every pair of bytes stands for
    /// valid flags.
    pub fn from_bytes(bytes: [u8; 2]) -> (flags: Flags)
        ensures
            flags == Flags::decode(bytes@[0], bytes@[1]),
            flags.valid(),
    {
        let high: u8 = bytes[0];
        let low: u8 = bytes[1];
        proof {
            Flags::lemma_decode_valid(high, low);
        }
        Flags {
            is_response: high >> 7 == 1,
            opcode: (high >> 3) & 0xf,
            authoritative: (high >> 2) & 1 == 1,
            truncated: (high >> 1) & 1 == 1,
            recursion_desired: high & 1 == 1,
            recursion_available: low >> 7 == 1,
            reserved: (low >> 4) & 7,
            response_code: low & 0xf,
        }
    }

    /// Whatever two bytes are decoded, the subfields fit into their bits.
    pub proof fn lemma_decode_valid(high: u8, low: u8)
        ensures
            Flags::decode(high, low).valid(),
    {
        assert((high >> 3) & 0xf <= 15) by (bit_vector);
        assert((low >> 4) & 7 <= 7) by (bit_vector);
        assert(low & 0xf <= 15) by (bit_vector);
    }

    /// Decoding the encoded form of valid flags gives the same flags back.
    pub proof fn theorem_decode_encode(flags: Flags)
        requires
            flags.valid(),
        ensures
            Flags::decode(flags.high_byte(), flags.low_byte()) == flags,
    {
        let qr = bit_of(flags.is_response);
        let op = flags.opcode;
        let aa = bit_of(flags.authoritative);
        let tc = bit_of(flags.truncated);
        let rd = bit_of(flags.recursion_desired);
        let ra = bit_of(flags.recursion_available);
        let z = flags.reserved;
        let rc = flags.response_code;
        assert(qr <= 1 && op <= 15 && aa <= 1 && tc <= 1 && rd <= 1 ==> {
            let high = (qr << 7) | (op << 3) | (aa << 2) | (tc << 1) | rd;
            &&& high >> 7 == qr
            &&& (high >> 3) & 0xf == op
            &&& (high >> 2) & 1 == aa
            &&& (high >> 1) & 1 == tc
            &&& high & 1 == rd
        }) by (bit_vector);
        assert(ra <= 1 && z <= 7 && rc <= 15 ==> {
            let low = (ra << 7) | (z << 4) | rc;
            &&& low >> 7 == ra
            &&& (low >> 4) & 7 == z
            &&& low & 0xf == rc
        }) by (bit_vector);
    }

    /// Encoding what two bytes decode to gives the same two bytes back.
    pub proof fn theorem_encode_decode(high: u8, low: u8)
        ensures
            Flags::decode(high, low).high_byte() == high,
            Flags::decode(high, low).low_byte() == low,
    {
        let f = Flags::decode(high, low);
        let qr = bit_of(f.is_response);
        let aa = bit_of(f.authoritative);
        let tc = bit_of(f.truncated);
        let rd = bit_of(f.recursion_desired);
        let ra = bit_of(f.recursion_available);
        assert(qr == high >> 7) by {
            assert(high >> 7 == 0 || high >> 7 == 1) by (bit_vector);
        }
        assert(aa == (high >> 2) & 1) by {
            assert((high >> 2) & 1 == 0 || (high >> 2) & 1 == 1) by (bit_vector);
        }
        assert(tc == (high >> 1) & 1) by {
            assert((high >> 1) & 1 == 0 || (high >> 1) & 1 == 1) by (bit_vector);
        }
        assert(rd == high & 1) by {
            assert(high & 1 == 0 || high & 1 == 1) by (bit_vector);
        }
        assert(ra == low >> 7) by {
            assert(low >> 7 == 0 || low >> 7 == 1) by (bit_vector);
        }
        assert(((high >> 7) << 7) | (((high >> 3) & 0xf) << 3) | (((high >> 2) & 1) << 2) | (((high
            >> 1) & 1) << 1) | (high & 1) == high) by (bit_vector);
        assert(((low >> 7) << 7) | (((low >> 4) & 7) << 4) | (low & 0xf) == low) by (bit_vector);
    }
}

} // verus!
