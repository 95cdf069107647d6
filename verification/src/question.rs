//! Entries of the question section.

use crate::code::{check_codes, codes_accepted, DecodeMode, ResourceClass, ResourceType};
use crate::error::DnsError;
use crate::name::{
    decode_name, lemma_decoded_name, lemma_name_round_trip, name_encodable, name_proper, name_wire,
    Name,
};
use crate::wire::{lemma_u16_round_trip, read_u16, u16_at, u16_bytes, write_u16};
use vstd::prelude::*;

verus! {

/// A question: what is asked about which name.
#[derive(Debug, PartialEq, Eq)]
pub struct Question {
    pub name: Name,
    pub qtype: ResourceType,
    pub qclass: ResourceClass,
}

/// A question as a mathematical value.
pub struct QuestionView {
    pub name: Seq<Seq<u8>>,
    pub qtype: ResourceType,
    pub qclass: ResourceClass,
}

impl View for Question {
    type V = QuestionView;

    open spec fn view(&self) -> QuestionView {
        QuestionView { name: self.name@, qtype: self.qtype, qclass: self.qclass }
    }
}

impl QuestionView {
    /// The question on the wire: the name, then type and class as big-endian
    /// 16-bit fields.
    pub open spec fn wire(self) -> Seq<u8> {
        name_wire(self.name) + u16_bytes(self.qtype.spec_code()) + u16_bytes(
            self.qclass.spec_code(),
        )
    }

    /// The question can be encoded: no label is longer than 63 bytes.
    pub open spec fn encodable(self) -> bool {
        name_encodable(self.name)
    }

    /// The question is the only one with its encoded form: no label is
    /// empty, and type and class are canonical.
    pub open spec fn canonical(self) -> bool {
        &&& name_proper(self.name)
        &&& self.qtype.canonical()
        &&& self.qclass.canonical()
    }
}

/// Encoding of a question.
pub open spec fn encode_question(question: QuestionView) -> Result<Seq<u8>, DnsError> {
    if question.encodable() {
        Ok(question.wire())
    } else {
        Err(DnsError::LabelTooLong)
    }
}

/// Decoding of the question that starts at `pos`: the question and the
/// offset behind it. The name and the two fields must lie within the buffer;
/// then, in strict mode, type and class must be recognized.
pub open spec fn decode_question(buffer: Seq<u8>, pos: int, mode: DecodeMode) -> Result<
    (QuestionView, int),
    DnsError,
> {
    match decode_name(buffer, pos) {
        Err(e) => Err(e),
        Ok((name, fields)) => {
            if fields + 4 > buffer.len() {
                Err(DnsError::TruncatedInput)
            } else {
                let qtype = ResourceType::spec_from_code(u16_at(buffer, fields));
                let qclass = ResourceClass::spec_from_code(u16_at(buffer, fields + 2));
                match check_codes(mode, qtype, qclass) {
                    Err(e) => Err(e),
                    Ok(_) => Ok((QuestionView { name, qtype, qclass }, fields + 4)),
                }
            }
        },
    }
}

/// The encoded form of a canonical question, wherever it stands in a buffer,
/// decodes to the same question and ends where the encoded form ends. In
/// strict mode this holds where type and class are named variants.
pub proof fn lemma_question_round_trip(
    buffer: Seq<u8>,
    pos: int,
    question: QuestionView,
    mode: DecodeMode,
)
    requires
        question.encodable(),
        question.canonical(),
        mode == DecodeMode::Strict ==> !(question.qtype is Unknown) && !(question.qclass is Unknown),
        0 <= pos,
        pos + question.wire().len() <= buffer.len(),
        buffer.subrange(pos, pos + question.wire().len()) == question.wire(),
    ensures
        decode_question(buffer, pos, mode) == Ok::<(QuestionView, int), DnsError>(
            (question, pos + question.wire().len()),
        ),
{
    let wire = question.wire();
    let window = buffer.subrange(pos, pos + wire.len());
    let name = name_wire(question.name);
    let fields = pos + name.len();
    assert(buffer.subrange(pos, fields) =~= name) by {
        assert forall|i: int| 0 <= i < name.len() implies buffer[pos + i] == name[i] by {
            assert(window[i] == buffer[pos + i]);
        }
    }
    lemma_name_round_trip(buffer, pos, question.name, set![pos]);
    let type_bytes = u16_bytes(question.qtype.spec_code());
    let class_bytes = u16_bytes(question.qclass.spec_code());
    assert(buffer.subrange(fields, fields + 2) =~= type_bytes) by {
        assert forall|i: int| 0 <= i < 2 implies buffer[fields + i] == type_bytes[i] by {
            assert(window[name.len() + i] == buffer[fields + i]);
        }
    }
    assert(buffer.subrange(fields + 2, fields + 4) =~= class_bytes) by {
        assert forall|i: int| 0 <= i < 2 implies buffer[fields + 2 + i] == class_bytes[i] by {
            assert(window[name.len() + 2 + i] == buffer[fields + 2 + i]);
        }
    }
    lemma_u16_round_trip(buffer, fields, question.qtype.spec_code());
    lemma_u16_round_trip(buffer, fields + 2, question.qclass.spec_code());
    question.qtype.lemma_code_round_trip();
    question.qclass.lemma_code_round_trip();
}

/// A decoded question is canonical, ends within the buffer, and in strict
/// mode has a named type and class.
pub proof fn lemma_decoded_question(buffer: Seq<u8>, pos: int, mode: DecodeMode)
    requires
        decode_question(buffer, pos, mode) is Ok,
    ensures
        decode_question(buffer, pos, mode)->Ok_0.0.canonical(),
        pos < decode_question(buffer, pos, mode)->Ok_0.1 <= buffer.len(),
        mode == DecodeMode::Strict ==> !(decode_question(buffer, pos, mode)->Ok_0.0.qtype
            is Unknown) && !(decode_question(buffer, pos, mode)->Ok_0.0.qclass is Unknown),
{
    lemma_decoded_name(buffer, pos, set![pos]);
}

impl Question {
    /// Decodes the question that starts at `offset`, and returns it with the
    /// offset behind it.
    pub fn parse(buffer: &[u8], offset: usize, mode: DecodeMode) -> (result: Result<
        (Question, usize),
        DnsError,
    >)
        ensures
            match result {
                Ok((question, end)) => end <= buffer@.len() && decode_question(
                    buffer@,
                    offset as int,
                    mode,
                ) == Ok::<(QuestionView, int), DnsError>((question@, end as int)),
                Err(e) => decode_question(buffer@, offset as int, mode) == Err::<
                    (QuestionView, int),
                    DnsError,
                >(e),
            },
    {
        let (name, fields) = Name::parse(buffer, offset)?;
        if buffer.len() - fields < 4 {
            return Err(DnsError::TruncatedInput);
        }
        let qtype = ResourceType::from_code(read_u16(buffer, fields)?);
        let qclass = ResourceClass::from_code(read_u16(buffer, fields + 2)?);
        codes_accepted(mode, qtype, qclass)?;
        Ok((Question { name, qtype, qclass }, fields + 4))
    }

    /// Encodes the question. A label of more than 63 bytes is an error.
    pub fn to_bytes(&self) -> (result: Result<Vec<u8>, DnsError>)
        ensures
            match result {
                Ok(bytes) => encode_question(self@) == Ok::<Seq<u8>, DnsError>(bytes@),
                Err(e) => encode_question(self@) == Err::<Seq<u8>, DnsError>(e),
            },
    {
        let mut out = self.name.to_bytes()?;
        write_u16(&mut out, self.qtype.code());
        write_u16(&mut out, self.qclass.code());
        Ok(out)
    }
}

impl Clone for Question {
    /// A copy of the question.
    fn clone(&self) -> (copy: Question)
        ensures
            copy@ == self@,
    {
        Question { name: self.name.clone(), qtype: self.qtype, qclass: self.qclass }
    }
}

} // verus!
