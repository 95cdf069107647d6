//! Whole messages: a header and four sections.

use crate::answer::{Answer, AnswerView};
use crate::code::DecodeMode;
use crate::error::{DnsError, ParseError, Section};
use crate::flags::Flags;
use crate::header::{Header, HEADER_LEN};
use crate::question::{Question, QuestionView};
use crate::section::{
    answers_canonical, answers_data_fit, answers_encodable, answers_recognized, answers_view,
    decode_answers, decode_questions, encode_answers, encode_questions, lemma_answers_round_trip,
    lemma_decoded_answers, lemma_decoded_questions, lemma_encode_answers_ok,
    lemma_encode_questions_ok, lemma_questions_round_trip, questions_canonical,
    questions_encodable, questions_recognized, questions_view, read_answers, read_questions,
    write_answers, write_questions,
};
use crate::wire::{holds_at, lemma_holds_at_split};
use vstd::prelude::*;

verus! {

/// The most entries that a section can hold: its count is a 16-bit field.
pub const MAX_SECTION_LEN: usize = 0xFFFF;

/// A message. The four counts of its header are not stored: on the wire
/// they are always the lengths that the sections have.
#[derive(Debug, PartialEq, Eq)]
pub struct Message {
    /// The transaction id, which a reply repeats.
    pub id: u16,
    pub flags: Flags,
    pub questions: Vec<Question>,
    pub answers: Vec<Answer>,
    /// The authority section.
    pub name_servers: Vec<Answer>,
    pub additional: Vec<Answer>,
}

/// A message as a mathematical value.
pub struct MessageView {
    pub id: u16,
    pub flags: Flags,
    pub questions: Seq<QuestionView>,
    pub answers: Seq<AnswerView>,
    pub name_servers: Seq<AnswerView>,
    pub additional: Seq<AnswerView>,
}

impl View for Message {
    type V = MessageView;

    open spec fn view(&self) -> MessageView {
        MessageView {
            id: self.id,
            flags: self.flags,
            questions: questions_view(self.questions@),
            answers: answers_view(self.answers@),
            name_servers: answers_view(self.name_servers@),
            additional: answers_view(self.additional@),
        }
    }
}

impl MessageView {
    /// The length of each section fits into its 16-bit count.
    pub open spec fn counts_fit(self) -> bool {
        &&& self.questions.len() <= 0xFFFF
        &&& self.answers.len() <= 0xFFFF
        &&& self.name_servers.len() <= 0xFFFF
        &&& self.additional.len() <= 0xFFFF
    }

    /// The header of the message: its id and flags, and as counts the
    /// lengths of its sections.
    pub open spec fn header(self) -> Header {
        Header {
            id: self.id,
            flags: self.flags,
            question_count: self.questions.len() as u16,
            answer_count: self.answers.len() as u16,
            authority_count: self.name_servers.len() as u16,
            additional_count: self.additional.len() as u16,
        }
    }

    /// The message can be encoded: the flags fit into their bits, the
    /// section lengths into their counts, no label is longer than 63 bytes
    /// and no record data longer than 65535 bytes.
    pub open spec fn encodable(self) -> bool {
        &&& self.flags.valid()
        &&& self.counts_fit()
        &&& questions_encodable(self.questions)
        &&& answers_encodable(self.answers)
        &&& answers_encodable(self.name_servers)
        &&& answers_encodable(self.additional)
    }

    /// The message is the only one with its encoded form: no label is empty,
    /// and every type and class is canonical.
    pub open spec fn canonical(self) -> bool {
        &&& questions_canonical(self.questions)
        &&& answers_canonical(self.answers)
        &&& answers_canonical(self.name_servers)
        &&& answers_canonical(self.additional)
    }

    /// Every type and class in the message is a named variant.
    pub open spec fn recognized(self) -> bool {
        &&& questions_recognized(self.questions)
        &&& answers_recognized(self.answers)
        &&& answers_recognized(self.name_servers)
        &&& answers_recognized(self.additional)
    }
}

/// Encoding of a message: the header, with the lengths of the sections as
/// its counts, then the questions, the answers, the authority records and
/// the additional records. Flags or section lengths that do not fit are
/// reported first, then the first entry that cannot be encoded.
pub open spec fn encode_message(message: MessageView) -> Result<Seq<u8>, DnsError> {
    if !message.flags.valid() || !message.counts_fit() {
        Err(DnsError::ValueOutOfRange)
    } else {
        match encode_questions(message.questions) {
            Err(e) => Err(e),
            Ok(questions) => match encode_answers(message.answers) {
                Err(e) => Err(e),
                Ok(answers) => match encode_answers(message.name_servers) {
                    Err(e) => Err(e),
                    Ok(name_servers) => match encode_answers(message.additional) {
                        Err(e) => Err(e),
                        Ok(additional) => Ok(
                            message.header().wire() + questions + answers + name_servers
                                + additional,
                        ),
                    },
                },
            },
        }
    }
}

/// The failure of an entry, with the section in which the entry stands.
pub open spec fn located(failure: (DnsError, nat), section: Section) -> ParseError {
    ParseError { kind: failure.0, section, index: failure.1 as u16 }
}

/// Decoding of a message: the header, then as many questions, answers,
/// authority records and additional records as the header counts, each
/// section starting where the one before it ended. Bytes behind the last
/// entry are ignored. An error names the section and the entry at which
/// decoding stopped.
pub open spec fn decode_message(buffer: Seq<u8>, mode: DecodeMode) -> Result<
    MessageView,
    ParseError,
> {
    if buffer.len() < 12 {
        Err(ParseError { kind: DnsError::TruncatedInput, section: Section::Header, index: 0 })
    } else {
        let header = Header::decode(buffer);
        match decode_questions(buffer, 12, header.question_count as nat, mode) {
            Err(failure) => Err(located(failure, Section::Question)),
            Ok((questions, answers_start)) => match decode_answers(
                buffer,
                answers_start,
                header.answer_count as nat,
                mode,
            ) {
                Err(failure) => Err(located(failure, Section::Answer)),
                Ok((answers, authority_start)) => match decode_answers(
                    buffer,
                    authority_start,
                    header.authority_count as nat,
                    mode,
                ) {
                    Err(failure) => Err(located(failure, Section::Authority)),
                    Ok((name_servers, additional_start)) => match decode_answers(
                        buffer,
                        additional_start,
                        header.additional_count as nat,
                        mode,
                    ) {
                        Err(failure) => Err(located(failure, Section::Additional)),
                        Ok((additional, _)) => Ok(
                            MessageView {
                                id: header.id,
                                flags: header.flags,
                                questions,
                                answers,
                                name_servers,
                                additional,
                            },
                        ),
                    },
                },
            },
        }
    }
}

/// A message is encoded exactly when it is encodable.
pub proof fn theorem_encoded_iff_encodable(message: MessageView)
    ensures
        encode_message(message) is Ok <==> message.encodable(),
{
    lemma_encode_questions_ok(message.questions);
    lemma_encode_answers_ok(message.answers);
    lemma_encode_answers_ok(message.name_servers);
    lemma_encode_answers_ok(message.additional);
}

/// The header at the start of an encoded message is the message's own: its
/// id and flags, and counts that equal the lengths of the sections, however
/// the sections were filled.
pub proof fn theorem_counts_match_sections(message: MessageView)
    requires
        message.encodable(),
    ensures
        encode_message(message)->Ok_0.len() >= 12,
        Header::decode(encode_message(message)->Ok_0) == message.header(),
        Header::decode(encode_message(message)->Ok_0).question_count == message.questions.len(),
        Header::decode(encode_message(message)->Ok_0).answer_count == message.answers.len(),
        Header::decode(encode_message(message)->Ok_0).authority_count
            == message.name_servers.len(),
        Header::decode(encode_message(message)->Ok_0).additional_count == message.additional.len(),
{
    theorem_encoded_iff_encodable(message);
    let bytes = encode_message(message)->Ok_0;
    let header = message.header().wire();
    assert(header.len() == 12);
    assert(bytes.subrange(0, 12) =~= header);
    message.header().theorem_decode_encode(bytes);
}

/// Where the parts of an encoded message stand: the header at the start,
/// each section behind the one before it.
pub proof fn lemma_encoded_layout(message: MessageView)
    requires
        encode_message(message) is Ok,
    ensures
        ({
            let bytes = encode_message(message)->Ok_0;
            let questions = encode_questions(message.questions)->Ok_0;
            let answers = encode_answers(message.answers)->Ok_0;
            let name_servers = encode_answers(message.name_servers)->Ok_0;
            let additional = encode_answers(message.additional)->Ok_0;
            let answers_start = 12 + questions.len() as int;
            let authority_start = answers_start + answers.len() as int;
            let additional_start = authority_start + name_servers.len() as int;
            &&& encode_questions(message.questions) is Ok
            &&& encode_answers(message.answers) is Ok
            &&& encode_answers(message.name_servers) is Ok
            &&& encode_answers(message.additional) is Ok
            &&& holds_at(bytes, 0, message.header().wire())
            &&& holds_at(bytes, 12, questions)
            &&& holds_at(bytes, answers_start, answers)
            &&& holds_at(bytes, authority_start, name_servers)
            &&& holds_at(bytes, additional_start, additional)
            &&& bytes.len() == additional_start + additional.len()
        }),
{
    let bytes = encode_message(message)->Ok_0;
    let header = message.header().wire();
    let questions = encode_questions(message.questions)->Ok_0;
    let answers = encode_answers(message.answers)->Ok_0;
    let name_servers = encode_answers(message.name_servers)->Ok_0;
    let additional = encode_answers(message.additional)->Ok_0;
    assert(header.len() == 12);
    assert(bytes == header + questions + answers + name_servers + additional);
    assert(bytes.subrange(0, bytes.len() as int) =~= bytes);
    lemma_holds_at_split(bytes, 0, header + questions + answers + name_servers, additional);
    lemma_holds_at_split(bytes, 0, header + questions + answers, name_servers);
    lemma_holds_at_split(bytes, 0, header + questions, answers);
    lemma_holds_at_split(bytes, 0, header, questions);
}

/// Decoding the encoded form of a canonical message gives the same message
/// back, field for field. In strict mode this holds where every type and
/// class is a named variant.
pub proof fn theorem_message_round_trip(message: MessageView, mode: DecodeMode)
    requires
        message.encodable(),
        message.canonical(),
        mode == DecodeMode::Strict ==> message.recognized(),
    ensures
        decode_message(encode_message(message)->Ok_0, mode) == Ok::<MessageView, ParseError>(
            message,
        ),
{
    theorem_encoded_iff_encodable(message);
    let bytes = encode_message(message)->Ok_0;
    let questions = encode_questions(message.questions)->Ok_0;
    let answers = encode_answers(message.answers)->Ok_0;
    let name_servers = encode_answers(message.name_servers)->Ok_0;
    let additional = encode_answers(message.additional)->Ok_0;
    let answers_start = 12 + questions.len() as int;
    let authority_start = answers_start + answers.len() as int;
    let additional_start = authority_start + name_servers.len() as int;
    lemma_encoded_layout(message);
    theorem_counts_match_sections(message);
    lemma_questions_round_trip(bytes, 12, message.questions, mode);
    lemma_answers_round_trip(bytes, answers_start, message.answers, mode);
    lemma_answers_round_trip(bytes, authority_start, message.name_servers, mode);
    lemma_answers_round_trip(bytes, additional_start, message.additional, mode);
}

/// A decoded message is canonical: its flags fit into their bits, each
/// section has as many entries as the header counts, no label is empty, every
/// type and class is canonical and the data of every record fits its length
/// field. In strict mode every type and class is a named variant.
pub proof fn theorem_decoded_is_canonical(buffer: Seq<u8>, mode: DecodeMode)
    requires
        decode_message(buffer, mode) is Ok,
    ensures
        decode_message(buffer, mode)->Ok_0.canonical(),
        decode_message(buffer, mode)->Ok_0.flags.valid(),
        decode_message(buffer, mode)->Ok_0.counts_fit(),
        decode_message(buffer, mode)->Ok_0.header() == Header::decode(buffer),
        answers_data_fit(decode_message(buffer, mode)->Ok_0.answers),
        answers_data_fit(decode_message(buffer, mode)->Ok_0.name_servers),
        answers_data_fit(decode_message(buffer, mode)->Ok_0.additional),
        mode == DecodeMode::Strict ==> decode_message(buffer, mode)->Ok_0.recognized(),
{
    let header = Header::decode(buffer);
    Flags::lemma_decode_valid(buffer[2], buffer[3]);
    lemma_decoded_questions(buffer, 12, header.question_count as nat, mode);
    let answers_start = decode_questions(buffer, 12, header.question_count as nat, mode)->Ok_0.1;
    lemma_decoded_answers(buffer, answers_start, header.answer_count as nat, mode);
    let authority_start = decode_answers(
        buffer,
        answers_start,
        header.answer_count as nat,
        mode,
    )->Ok_0.1;
    lemma_decoded_answers(buffer, authority_start, header.authority_count as nat, mode);
    let additional_start = decode_answers(
        buffer,
        authority_start,
        header.authority_count as nat,
        mode,
    )->Ok_0.1;
    lemma_decoded_answers(buffer, additional_start, header.additional_count as nat, mode);
}

/// A decoded message that can be encoded again decodes from its encoded form
/// to the same message: what was passed through once passes through
/// unchanged from then on.
pub proof fn theorem_pass_through(buffer: Seq<u8>, mode: DecodeMode)
    requires
        decode_message(buffer, mode) is Ok,
        decode_message(buffer, mode)->Ok_0.encodable(),
    ensures
        encode_message(decode_message(buffer, mode)->Ok_0) is Ok,
        decode_message(encode_message(decode_message(buffer, mode)->Ok_0)->Ok_0, mode)
            == decode_message(buffer, mode),
{
    let message = decode_message(buffer, mode)->Ok_0;
    theorem_decoded_is_canonical(buffer, mode);
    theorem_encoded_iff_encodable(message);
    theorem_message_round_trip(message, mode);
}

impl Message {
    /// A message with the id and flags of `header` and no entries. The
    /// counts of `header` play no part.
    pub fn new(header: Header) -> (message: Message)
        ensures
            message@ == (MessageView {
                id: header.id,
                flags: header.flags,
                questions: Seq::empty(),
                answers: Seq::empty(),
                name_servers: Seq::empty(),
                additional: Seq::empty(),
            }),
    {
        let message = Message {
            id: header.id,
            flags: header.flags,
            questions: Vec::new(),
            answers: Vec::new(),
            name_servers: Vec::new(),
            additional: Vec::new(),
        };
        proof {
            assert(questions_view(message.questions@) =~= Seq::<QuestionView>::empty());
            assert(answers_view(message.answers@) =~= Seq::<AnswerView>::empty());
            assert(answers_view(message.name_servers@) =~= Seq::<AnswerView>::empty());
            assert(answers_view(message.additional@) =~= Seq::<AnswerView>::empty());
        }
        message
    }

    /// Appends a question to the question section.
    pub fn add_question(&mut self, question: Question)
        ensures
            final(self)@ == (MessageView {
                questions: old(self)@.questions.push(question@),
                ..old(self)@
            }),
    {
        proof {
            assert(questions_view(self.questions@.push(question)) =~= questions_view(
                self.questions@,
            ).push(question@));
        }
        self.questions.push(question);
    }

    /// Appends a record to the answer section.
    pub fn add_answer(&mut self, answer: Answer)
        ensures
            final(self)@ == (MessageView {
                answers: old(self)@.answers.push(answer@),
                ..old(self)@
            }),
    {
        proof {
            assert(answers_view(self.answers@.push(answer)) =~= answers_view(self.answers@).push(
                answer@,
            ));
        }
        self.answers.push(answer);
    }

    /// Appends a record to the authority section.
    pub fn add_name_server(&mut self, answer: Answer)
        ensures
            final(self)@ == (MessageView {
                name_servers: old(self)@.name_servers.push(answer@),
                ..old(self)@
            }),
    {
        proof {
            assert(answers_view(self.name_servers@.push(answer)) =~= answers_view(
                self.name_servers@,
            ).push(answer@));
        }
        self.name_servers.push(answer);
    }

    /// Appends a record to the additional section.
    pub fn add_additional(&mut self, answer: Answer)
        ensures
            final(self)@ == (MessageView {
                additional: old(self)@.additional.push(answer@),
                ..old(self)@
            }),
    {
        proof {
            assert(answers_view(self.additional@.push(answer)) =~= answers_view(
                self.additional@,
            ).push(answer@));
        }
        self.additional.push(answer);
    }

    /// The header of the message, with the lengths of the sections as its
    /// counts. A section of more than 65535 entries is an error.
    pub fn header(&self) -> (result: Result<Header, DnsError>)
        ensures
            self@.counts_fit() ==> result == Ok::<Header, DnsError>(self@.header()),
            !self@.counts_fit() ==> result == Err::<Header, DnsError>(DnsError::ValueOutOfRange),
    {
        if self.questions.len() > MAX_SECTION_LEN || self.answers.len() > MAX_SECTION_LEN
            || self.name_servers.len() > MAX_SECTION_LEN || self.additional.len()
            > MAX_SECTION_LEN {
            return Err(DnsError::ValueOutOfRange);
        }
        Ok(
            Header {
                id: self.id,
                flags: self.flags,
                question_count: self.questions.len() as u16,
                answer_count: self.answers.len() as u16,
                authority_count: self.name_servers.len() as u16,
                additional_count: self.additional.len() as u16,
            },
        )
    }

    /// Decodes a message, keeping type and class codes that have no named
    /// variant as `Unknown`.
    pub fn parse(buffer: &[u8]) -> (result: Result<Message, ParseError>)
        ensures
            match result {
                Ok(message) => decode_message(buffer@, DecodeMode::Lenient) == Ok::<
                    MessageView,
                    ParseError,
                >(message@),
                Err(e) => decode_message(buffer@, DecodeMode::Lenient) == Err::<
                    MessageView,
                    ParseError,
                >(e),
            },
    {
        Message::parse_with(buffer, DecodeMode::Lenient)
    }

    /// Decodes a message, refusing entries whose type or class code has no
    /// named variant.
    pub fn parse_strict(buffer: &[u8]) -> (result: Result<Message, ParseError>)
        ensures
            match result {
                Ok(message) => decode_message(buffer@, DecodeMode::Strict) == Ok::<
                    MessageView,
                    ParseError,
                >(message@),
                Err(e) => decode_message(buffer@, DecodeMode::Strict) == Err::<
                    MessageView,
                    ParseError,
                >(e),
            },
    {
        Message::parse_with(buffer, DecodeMode::Strict)
    }

    /// Decodes a message in the given mode: the header, then as many entries
    /// of each section as the header counts.
    pub fn parse_with(buffer: &[u8], mode: DecodeMode) -> (result: Result<Message, ParseError>)
        ensures
            match result {
                Ok(message) => decode_message(buffer@, mode) == Ok::<MessageView, ParseError>(
                    message@,
                ),
                Err(e) => decode_message(buffer@, mode) == Err::<MessageView, ParseError>(e),
            },
    {
        let header = match Header::parse(buffer) {
            Ok(header) => header,
            Err(kind) => {
                return Err(ParseError { kind, section: Section::Header, index: 0 });
            },
        };
        let (questions, answers_start) = match read_questions(
            buffer,
            HEADER_LEN,
            header.question_count,
            mode,
        ) {
            Ok(section) => section,
            Err((kind, index)) => {
                return Err(ParseError { kind, section: Section::Question, index });
            },
        };
        let (answers, authority_start) = match read_answers(
            buffer,
            answers_start,
            header.answer_count,
            mode,
        ) {
            Ok(section) => section,
            Err((kind, index)) => {
                return Err(ParseError { kind, section: Section::Answer, index });
            },
        };
        let (name_servers, additional_start) = match read_answers(
            buffer,
            authority_start,
            header.authority_count,
            mode,
        ) {
            Ok(section) => section,
            Err((kind, index)) => {
                return Err(ParseError { kind, section: Section::Authority, index });
            },
        };
        let (additional, _) = match read_answers(
            buffer,
            additional_start,
            header.additional_count,
            mode,
        ) {
            Ok(section) => section,
            Err((kind, index)) => {
                return Err(ParseError { kind, section: Section::Additional, index });
            },
        };
        Ok(Message { id: header.id, flags: header.flags, questions, answers, name_servers, additional })
    }

    /// Encodes the message. The counts of the header are the lengths of the
    /// sections. Flags that do not fit into their bits, a section of more
    /// than 65535 entries and record data of more than 65535 bytes are
    /// `ValueOutOfRange`; a label of more than 63 bytes is `LabelTooLong`.
    pub fn to_bytes(&self) -> (result: Result<Vec<u8>, DnsError>)
        ensures
            match result {
                Ok(bytes) => encode_message(self@) == Ok::<Seq<u8>, DnsError>(bytes@),
                Err(e) => encode_message(self@) == Err::<Seq<u8>, DnsError>(e),
            },
    {
        let header = self.header()?;
        let mut out = header.to_bytes()?;
        write_questions(&mut out, &self.questions)?;
        write_answers(&mut out, &self.answers)?;
        write_answers(&mut out, &self.name_servers)?;
        write_answers(&mut out, &self.additional)?;
        Ok(out)
    }
}

/// A copy of each question.
pub fn copy_questions(questions: &Vec<Question>) -> (copy: Vec<Question>)
    ensures
        questions_view(copy@) == questions_view(questions@),
{
    let mut copy: Vec<Question> = Vec::new();
    let count = questions.len();
    let mut i: usize = 0;
    while i < count
        invariant
            count == questions@.len(),
            i <= count,
            questions_view(copy@) == questions_view(questions@).take(i as int),
        decreases count - i,
    {
        let question = questions[i].clone();
        proof {
            let all = questions_view(questions@);
            assert(all.take(i + 1) =~= all.take(i as int).push(all[i as int]));
            assert(questions_view(copy@.push(question)) =~= questions_view(copy@).push(question@));
        }
        copy.push(question);
        i += 1;
    }
    assert(questions_view(questions@).take(count as int) =~= questions_view(questions@));
    copy
}

/// A copy of each record.
pub fn copy_answers(answers: &Vec<Answer>) -> (copy: Vec<Answer>)
    ensures
        answers_view(copy@) == answers_view(answers@),
{
    let mut copy: Vec<Answer> = Vec::new();
    let count = answers.len();
    let mut i: usize = 0;
    while i < count
        invariant
            count == answers@.len(),
            i <= count,
            answers_view(copy@) == answers_view(answers@).take(i as int),
        decreases count - i,
    {
        let answer = answers[i].clone();
        proof {
            let all = answers_view(answers@);
            assert(all.take(i + 1) =~= all.take(i as int).push(all[i as int]));
            assert(answers_view(copy@.push(answer)) =~= answers_view(copy@).push(answer@));
        }
        copy.push(answer);
        i += 1;
    }
    assert(answers_view(answers@).take(count as int) =~= answers_view(answers@));
    copy
}

impl Clone for Message {
    /// A copy of the message.
    fn clone(&self) -> (copy: Message)
        ensures
            copy@ == self@,
    {
        Message {
            id: self.id,
            flags: self.flags,
            questions: copy_questions(&self.questions),
            answers: copy_answers(&self.answers),
            name_servers: copy_answers(&self.name_servers),
            additional: copy_answers(&self.additional),
        }
    }
}

} // verus!
