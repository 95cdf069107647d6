//! The fixed 12-byte message header.

use crate::error::DnsError;
use crate::flags::{Flags, MessageType};
use crate::wire::{read_u16, u16_at, u16_bytes, write_u16};
use vstd::prelude::*;

verus! {

/// The number of bytes that a header takes on the wire.
pub const HEADER_LEN: usize = 12;

/// The message header: the transaction id, the flag word, and the number of
/// entries in each of the four sections that follow it.
#[derive(Clone, Copy, Debug, PartialEq, Eq, Structural)]
pub struct Header {
    pub id: u16,
    pub flags: Flags,
    pub question_count: u16,
    pub answer_count: u16,
    pub authority_count: u16,
    pub additional_count: u16,
}

impl Header {
    /// The twelve bytes of the header: id, flag word and the four counts,
    /// each count a big-endian 16-bit field.
    pub open spec fn wire(self) -> Seq<u8> {
        u16_bytes(self.id) + self.flags.wire() + u16_bytes(self.question_count) + u16_bytes(
            self.answer_count,
        ) + u16_bytes(self.authority_count) + u16_bytes(self.additional_count)
    }

    /// The header that the first twelve bytes of `buffer` stand for.
    pub open spec fn decode(buffer: Seq<u8>) -> Header {
        Header {
            id: u16_at(buffer, 0),
            flags: Flags::decode(buffer[2], buffer[3]),
            question_count: u16_at(buffer, 4),
            answer_count: u16_at(buffer, 6),
            authority_count: u16_at(buffer, 8),
            additional_count: u16_at(buffer, 10),
        }
    }

    /// The header of a fresh message: the given id and type, every other flag
    /// zero, no entries.
    pub fn new(id: u16, msg_type: MessageType) -> (header: Header)
        ensures
            header.id == id,
            header.flags == Flags::new_spec(msg_type),
            header.question_count == 0,
            header.answer_count == 0,
            header.authority_count == 0,
            header.additional_count == 0,
    {
        Header {
            id,
            flags: Flags::new(msg_type),
            question_count: 0,
            answer_count: 0,
            authority_count: 0,
            additional_count: 0,
        }
    }

    /// Decodes the header at the start of `buffer`. A buffer of fewer than
    /// twelve bytes is truncated; any twelve bytes are a header.
    pub fn parse(buffer: &[u8]) -> (result: Result<Header, DnsError>)
        ensures
            buffer@.len() >= 12 ==> result == Ok::<Header, DnsError>(Header::decode(buffer@)),
            buffer@.len() < 12 ==> result == Err::<Header, DnsError>(DnsError::TruncatedInput),
            result is Ok ==> result->Ok_0.flags.valid(),
    {
        if buffer.len() < HEADER_LEN {
            return Err(DnsError::TruncatedInput);
        }
        let id = read_u16(buffer, 0)?;
        let flags = Flags::from_bytes([buffer[2], buffer[3]]);
        let question_count = read_u16(buffer, 4)?;
        let answer_count = read_u16(buffer, 6)?;
        let authority_count = read_u16(buffer, 8)?;
        let additional_count = read_u16(buffer, 10)?;
        Ok(Header { id, flags, question_count, answer_count, authority_count, additional_count })
    }

    /// Encodes the header. Flags with a subfield that does not fit into its
    /// bits are an error.
    pub fn to_bytes(&self) -> (result: Result<Vec<u8>, DnsError>)
        ensures
            self.flags.valid() ==> result is Ok && result->Ok_0@ == self.wire(),
            !self.flags.valid() ==> result == Err::<Vec<u8>, DnsError>(DnsError::ValueOutOfRange),
    {
        let flag_bytes = self.flags.to_bytes()?;
        let mut out: Vec<u8> = Vec::new();
        write_u16(&mut out, self.id);
        out.push(flag_bytes[0]);
        out.push(flag_bytes[1]);
        write_u16(&mut out, self.question_count);
        write_u16(&mut out, self.answer_count);
        write_u16(&mut out, self.authority_count);
        write_u16(&mut out, self.additional_count);
        assert(out@ =~= self.wire());
        Ok(out)
    }

    /// Decoding the encoded form of a header with valid flags gives the same
    /// header back, whatever follows the header in the buffer.
    pub proof fn theorem_decode_encode(self, buffer: Seq<u8>)
        requires
            self.flags.valid(),
            buffer.len() >= 12,
            buffer.subrange(0, 12) == self.wire(),
        ensures
            Header::decode(buffer) == self,
    {
        let w = self.wire();
        assert(w.len() == 12);
        assert forall|i: int| 0 <= i < 12 implies buffer[i] == w[i] by {
            assert(buffer.subrange(0, 12)[i] == buffer[i]);
        }
        Flags::theorem_decode_encode(self.flags);
        assert(w[2] == self.flags.high_byte());
        assert(w[3] == self.flags.low_byte());
    }
}

} // verus!
