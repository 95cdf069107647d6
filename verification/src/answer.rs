//! Resource records: the entries of the answer, authority and additional
//! sections.

use crate::code::{check_codes, codes_accepted, DecodeMode, ResourceClass, ResourceType};
use crate::error::DnsError;
use crate::name::{
    decode_name, lemma_decoded_name, lemma_name_round_trip, name_encodable, name_proper, name_wire,
    Name,
};
use crate::wire::{
    lemma_u16_round_trip, lemma_u32_round_trip, read_u16, read_u32, u16_at, u16_bytes, u32_at,
    u32_bytes, write_u16, write_u32,
};
use vstd::prelude::*;
use vstd::slice::{slice_subrange, slice_to_vec};

verus! {

/// The longest record data that the 16-bit length field can announce.
pub const MAX_RDATA_LEN: usize = 0xFFFF;

/// A resource record. The length of its data is not stored: on the wire it
/// is always the length that `rdata` has.
#[derive(Debug, PartialEq, Eq)]
pub struct Answer {
    pub name: Name,
    pub rtype: ResourceType,
    pub rclass: ResourceClass,
    /// Seconds for which the record may be kept.
    pub ttl: u32,
    pub rdata: Vec<u8>,
}

/// A resource record as a mathematical value.
pub struct AnswerView {
    pub name: Seq<Seq<u8>>,
    pub rtype: ResourceType,
    pub rclass: ResourceClass,
    pub ttl: u32,
    pub rdata: Seq<u8>,
}

impl View for Answer {
    type V = AnswerView;

    open spec fn view(&self) -> AnswerView {
        AnswerView {
            name: self.name@,
            rtype: self.rtype,
            rclass: self.rclass,
            ttl: self.ttl,
            rdata: self.rdata@,
        }
    }
}

impl AnswerView {
    /// The record on the wire: the name, type and class (16 bits each), the
    /// time to live (32 bits), the length of the data (16 bits), the data.
    pub open spec fn wire(self) -> Seq<u8> {
        name_wire(self.name) + u16_bytes(self.rtype.spec_code()) + u16_bytes(
            self.rclass.spec_code(),
        ) + u32_bytes(self.ttl) + u16_bytes(self.rdata.len() as u16) + self.rdata
    }

    /// The record can be encoded: no label is longer than 63 bytes, and the
    /// length of the data fits into 16 bits.
    pub open spec fn encodable(self) -> bool {
        &&& name_encodable(self.name)
        &&& self.rdata.len() <= 0xFFFF
    }

    /// The record is the only one with its encoded form: no label is empty,
    /// and type and class are canonical.
    pub open spec fn canonical(self) -> bool {
        &&& name_proper(self.name)
        &&& self.rtype.canonical()
        &&& self.rclass.canonical()
    }
}

/// Encoding of a record: a label that is too long is reported first, then
/// data that is too long.
pub open spec fn encode_answer(answer: AnswerView) -> Result<Seq<u8>, DnsError> {
    if !name_encodable(answer.name) {
        Err(DnsError::LabelTooLong)
    } else if answer.rdata.len() > 0xFFFF {
        Err(DnsError::ValueOutOfRange)
    } else {
        Ok(answer.wire())
    }
}

/// Decoding of the record that starts at `pos`: the record and the offset
/// behind it. The name, the ten bytes of fixed fields and as many bytes of
/// data as the length field announces must lie within the buffer; then, in
/// strict mode, type and class must be recognized.
pub open spec fn decode_answer(buffer: Seq<u8>, pos: int, mode: DecodeMode) -> Result<
    (AnswerView, int),
    DnsError,
> {
    match decode_name(buffer, pos) {
        Err(e) => Err(e),
        Ok((name, fields)) => {
            if fields + 10 > buffer.len() {
                Err(DnsError::TruncatedInput)
            } else {
                let rtype = ResourceType::spec_from_code(u16_at(buffer, fields));
                let rclass = ResourceClass::spec_from_code(u16_at(buffer, fields + 2));
                let ttl = u32_at(buffer, fields + 4);
                let data = fields + 10;
                let end = data + u16_at(buffer, fields + 8);
                if end > buffer.len() {
                    Err(DnsError::TruncatedInput)
                } else {
                    match check_codes(mode, rtype, rclass) {
                        Err(e) => Err(e),
                        Ok(_) => Ok(
                            (
                                AnswerView {
                                    name,
                                    rtype,
                                    rclass,
                                    ttl,
                                    rdata: buffer.subrange(data, end),
                                },
                                end,
                            ),
                        ),
                    }
                }
            }
        },
    }
}

/// A record whose length field announces more data than the buffer still
/// holds is truncated, in either mode and whatever its type and class.
pub proof fn theorem_short_rdata_is_truncated(buffer: Seq<u8>, pos: int, mode: DecodeMode)
    requires
        decode_name(buffer, pos) is Ok,
        ({
            let fields = decode_name(buffer, pos)->Ok_0.1;
            fields + 10 <= buffer.len() && fields + 10 + u16_at(buffer, fields + 8) > buffer.len()
        }),
    ensures
        decode_answer(buffer, pos, mode) == Err::<(AnswerView, int), DnsError>(
            DnsError::TruncatedInput,
        ),
{
}

/// The encoded form of a canonical record, wherever it stands in a buffer,
/// decodes to the same record and ends where the encoded form ends. In
/// strict mode this holds where type and class are named variants.
pub proof fn lemma_answer_round_trip(buffer: Seq<u8>, pos: int, answer: AnswerView, mode: DecodeMode)
    requires
        answer.encodable(),
        answer.canonical(),
        mode == DecodeMode::Strict ==> !(answer.rtype is Unknown) && !(answer.rclass is Unknown),
        0 <= pos,
        pos + answer.wire().len() <= buffer.len(),
        buffer.subrange(pos, pos + answer.wire().len()) == answer.wire(),
    ensures
        decode_answer(buffer, pos, mode) == Ok::<(AnswerView, int), DnsError>(
            (answer, pos + answer.wire().len()),
        ),
{
    let wire = answer.wire();
    let window = buffer.subrange(pos, pos + wire.len());
    let name = name_wire(answer.name);
    let fields = pos + name.len();
    assert(buffer.subrange(pos, fields) =~= name) by {
        assert forall|i: int| 0 <= i < name.len() implies buffer[pos + i] == name[i] by {
            assert(window[i] == buffer[pos + i]);
        }
    }
    lemma_name_round_trip(buffer, pos, answer.name, set![pos]);
    let type_bytes = u16_bytes(answer.rtype.spec_code());
    let class_bytes = u16_bytes(answer.rclass.spec_code());
    let ttl_bytes = u32_bytes(answer.ttl);
    let len_bytes = u16_bytes(answer.rdata.len() as u16);
    assert(buffer.subrange(fields, fields + 2) =~= type_bytes) by {
        assert forall|i: int| 0 <= i < 2 implies buffer[fields + i] == type_bytes[i] by {
            assert(window[name.len() + i] == buffer[fields + i]);
        }
    }
    assert(buffer.subrange(fields + 2, fields + 4) =~= class_bytes) by {
        assert forall|i: int| 0 <= i < 2 implies buffer[fields + 2 + i] == class_bytes[i] by {
            assert(window[name.len() + 2 + i] == buffer[fields + 2 + i]);
        }
    }
    assert(buffer.subrange(fields + 4, fields + 8) =~= ttl_bytes) by {
        assert forall|i: int| 0 <= i < 4 implies buffer[fields + 4 + i] == ttl_bytes[i] by {
            assert(window[name.len() + 4 + i] == buffer[fields + 4 + i]);
        }
    }
    assert(buffer.subrange(fields + 8, fields + 10) =~= len_bytes) by {
        assert forall|i: int| 0 <= i < 2 implies buffer[fields + 8 + i] == len_bytes[i] by {
            assert(window[name.len() + 8 + i] == buffer[fields + 8 + i]);
        }
    }
    lemma_u16_round_trip(buffer, fields, answer.rtype.spec_code());
    lemma_u16_round_trip(buffer, fields + 2, answer.rclass.spec_code());
    lemma_u32_round_trip(buffer, fields + 4, answer.ttl);
    lemma_u16_round_trip(buffer, fields + 8, answer.rdata.len() as u16);
    answer.rtype.lemma_code_round_trip();
    answer.rclass.lemma_code_round_trip();
    let data = fields + 10;
    assert(buffer.subrange(data, data + answer.rdata.len()) =~= answer.rdata) by {
        assert forall|i: int| 0 <= i < answer.rdata.len() implies buffer[data + i]
            == answer.rdata[i] by {
            assert(window[name.len() + 10 + i] == buffer[data + i]);
        }
    }
}

/// A decoded record is canonical, its data fits the length field, it ends
/// within the buffer, and in strict mode it has a named type and class.
pub proof fn lemma_decoded_answer(buffer: Seq<u8>, pos: int, mode: DecodeMode)
    requires
        decode_answer(buffer, pos, mode) is Ok,
    ensures
        decode_answer(buffer, pos, mode)->Ok_0.0.canonical(),
        decode_answer(buffer, pos, mode)->Ok_0.0.rdata.len() <= 0xFFFF,
        pos < decode_answer(buffer, pos, mode)->Ok_0.1 <= buffer.len(),
        mode == DecodeMode::Strict ==> !(decode_answer(buffer, pos, mode)->Ok_0.0.rtype is Unknown)
            && !(decode_answer(buffer, pos, mode)->Ok_0.0.rclass is Unknown),
{
    lemma_decoded_name(buffer, pos, set![pos]);
}

impl Answer {
    /// Decodes the record that starts at `offset`, and returns it with the
    /// offset behind it. Exactly as many bytes of data are read as the
    /// record's length field announces.
    pub fn parse(buffer: &[u8], offset: usize, mode: DecodeMode) -> (result: Result<
        (Answer, usize),
        DnsError,
    >)
        ensures
            match result {
                Ok((answer, end)) => end <= buffer@.len() && decode_answer(
                    buffer@,
                    offset as int,
                    mode,
                ) == Ok::<(AnswerView, int), DnsError>((answer@, end as int)),
                Err(e) => decode_answer(buffer@, offset as int, mode) == Err::<
                    (AnswerView, int),
                    DnsError,
                >(e),
            },
    {
        let (name, fields) = Name::parse(buffer, offset)?;
        if buffer.len() - fields < 10 {
            return Err(DnsError::TruncatedInput);
        }
        let rtype = ResourceType::from_code(read_u16(buffer, fields)?);
        let rclass = ResourceClass::from_code(read_u16(buffer, fields + 2)?);
        let ttl = read_u32(buffer, fields + 4)?;
        let rdlength = read_u16(buffer, fields + 8)? as usize;
        let data = fields + 10;
        if buffer.len() - data < rdlength {
            return Err(DnsError::TruncatedInput);
        }
        codes_accepted(mode, rtype, rclass)?;
        let rdata = slice_to_vec(slice_subrange(buffer, data, data + rdlength));
        Ok((Answer { name, rtype, rclass, ttl, rdata }, data + rdlength))
    }

    /// Encodes the record. The length field is the length that the data has.
    /// A label of more than 63 bytes is an error, and so is data of more
    /// than 65535 bytes.
    pub fn to_bytes(&self) -> (result: Result<Vec<u8>, DnsError>)
        ensures
            match result {
                Ok(bytes) => encode_answer(self@) == Ok::<Seq<u8>, DnsError>(bytes@),
                Err(e) => encode_answer(self@) == Err::<Seq<u8>, DnsError>(e),
            },
    {
        let mut out = self.name.to_bytes()?;
        if self.rdata.len() > MAX_RDATA_LEN {
            return Err(DnsError::ValueOutOfRange);
        }
        write_u16(&mut out, self.rtype.code());
        write_u16(&mut out, self.rclass.code());
        write_u32(&mut out, self.ttl);
        write_u16(&mut out, self.rdata.len() as u16);
        let ghost head = out@;
        let mut k: usize = 0;
        while k < self.rdata.len()
            invariant
                k <= self.rdata@.len(),
                out@ == head + self.rdata@.take(k as int),
            decreases self.rdata@.len() - k,
        {
            out.push(self.rdata[k]);
            assert(self.rdata@.take(k as int).push(self.rdata@[k as int]) =~= self.rdata@.take(
                k + 1,
            ));
            k += 1;
        }
        assert(self.rdata@.take(self.rdata@.len() as int) =~= self.rdata@);
        Ok(out)
    }
}

impl Clone for Answer {
    /// A copy of the record.
    fn clone(&self) -> (copy: Answer)
        ensures
            copy@ == self@,
    {
        Answer {
            name: self.name.clone(),
            rtype: self.rtype,
            rclass: self.rclass,
            ttl: self.ttl,
            rdata: slice_to_vec(self.rdata.as_slice()),
        }
    }
}

} // verus!
