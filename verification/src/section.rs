//! Runs of entries: the question section and the three record sections.

use crate::answer::{
    decode_answer, encode_answer, lemma_answer_round_trip, lemma_decoded_answer, Answer, AnswerView,
};
use crate::code::DecodeMode;
use crate::error::DnsError;
use crate::question::{
    decode_question, encode_question, lemma_decoded_question, lemma_question_round_trip, Question,
    QuestionView,
};
use crate::wire::{holds_at, lemma_holds_at_split};
use vstd::prelude::*;

verus! {

/// The questions that executable questions view as.
pub open spec fn questions_view(questions: Seq<Question>) -> Seq<QuestionView> {
    questions.map_values(|question: Question| question@)
}

/// The records that executable records view as.
pub open spec fn answers_view(answers: Seq<Answer>) -> Seq<AnswerView> {
    answers.map_values(|answer: Answer| answer@)
}

/// Encoding of a run of questions, one behind the other. The first question
/// that cannot be encoded decides the error.
pub open spec fn encode_questions(questions: Seq<QuestionView>) -> Result<Seq<u8>, DnsError>
    decreases questions.len(),
{
    if questions.len() == 0 {
        Ok(Seq::empty())
    } else {
        match encode_questions(questions.drop_last()) {
            Err(e) => Err(e),
            Ok(before) => match encode_question(questions.last()) {
                Err(e) => Err(e),
                Ok(last) => Ok(before + last),
            },
        }
    }
}

/// Encoding of a run of records, one behind the other. The first record that
/// cannot be encoded decides the error.
pub open spec fn encode_answers(answers: Seq<AnswerView>) -> Result<Seq<u8>, DnsError>
    decreases answers.len(),
{
    if answers.len() == 0 {
        Ok(Seq::empty())
    } else {
        match encode_answers(answers.drop_last()) {
            Err(e) => Err(e),
            Ok(before) => match encode_answer(answers.last()) {
                Err(e) => Err(e),
                Ok(last) => Ok(before + last),
            },
        }
    }
}

/// Decoding of `count` questions that stand one behind the other from
/// `start`: the questions and the offset behind the last of them, or the
/// error of the first question that cannot be decoded, with its index.
pub open spec fn decode_questions(buffer: Seq<u8>, start: int, count: nat, mode: DecodeMode) -> Result<
    (Seq<QuestionView>, int),
    (DnsError, nat),
>
    decreases count,
{
    if count == 0 {
        Ok((Seq::empty(), start))
    } else {
        match decode_questions(buffer, start, (count - 1) as nat, mode) {
            Err(failure) => Err(failure),
            Ok((before, pos)) => match decode_question(buffer, pos, mode) {
                Err(e) => Err((e, (count - 1) as nat)),
                Ok((last, end)) => Ok((before.push(last), end)),
            },
        }
    }
}

/// Decoding of `count` records that stand one behind the other from `start`:
/// the records and the offset behind the last of them, or the error of the
/// first record that cannot be decoded, with its index.
pub open spec fn decode_answers(buffer: Seq<u8>, start: int, count: nat, mode: DecodeMode) -> Result<
    (Seq<AnswerView>, int),
    (DnsError, nat),
>
    decreases count,
{
    if count == 0 {
        Ok((Seq::empty(), start))
    } else {
        match decode_answers(buffer, start, (count - 1) as nat, mode) {
            Err(failure) => Err(failure),
            Ok((before, pos)) => match decode_answer(buffer, pos, mode) {
                Err(e) => Err((e, (count - 1) as nat)),
                Ok((last, end)) => Ok((before.push(last), end)),
            },
        }
    }
}

/// Every question of the run can be encoded.
pub open spec fn questions_encodable(questions: Seq<QuestionView>) -> bool {
    forall|i: int| 0 <= i < questions.len() ==> (#[trigger] questions[i]).encodable()
}

/// Every record of the run can be encoded.
pub open spec fn answers_encodable(answers: Seq<AnswerView>) -> bool {
    forall|i: int| 0 <= i < answers.len() ==> (#[trigger] answers[i]).encodable()
}

/// Every question of the run is canonical.
pub open spec fn questions_canonical(questions: Seq<QuestionView>) -> bool {
    forall|i: int| 0 <= i < questions.len() ==> (#[trigger] questions[i]).canonical()
}

/// Every record of the run is canonical.
pub open spec fn answers_canonical(answers: Seq<AnswerView>) -> bool {
    forall|i: int| 0 <= i < answers.len() ==> (#[trigger] answers[i]).canonical()
}

/// Type and class of every question of the run are named variants.
pub open spec fn questions_recognized(questions: Seq<QuestionView>) -> bool {
    forall|i: int|
        0 <= i < questions.len() ==> !((#[trigger] questions[i]).qtype is Unknown)
            && !(questions[i].qclass is Unknown)
}

/// Type and class of every record of the run are named variants.
pub open spec fn answers_recognized(answers: Seq<AnswerView>) -> bool {
    forall|i: int|
        0 <= i < answers.len() ==> !((#[trigger] answers[i]).rtype is Unknown) && !(answers[i].rclass
            is Unknown)
}

/// A run of questions is encoded exactly when each of them can be.
pub proof fn lemma_encode_questions_ok(questions: Seq<QuestionView>)
    ensures
        encode_questions(questions) is Ok <==> questions_encodable(questions),
    decreases questions.len(),
{
    if questions.len() > 0 {
        let before = questions.drop_last();
        lemma_encode_questions_ok(before);
        if questions_encodable(questions) {
            assert forall|i: int| 0 <= i < before.len() implies (#[trigger] before[i]).encodable() by {
                assert(before[i] == questions[i]);
            }
            assert(questions.last().encodable());
        }
        if encode_questions(questions) is Ok {
            assert forall|i: int| 0 <= i < questions.len() implies (
            #[trigger] questions[i]).encodable() by {
                if i < before.len() {
                    assert(before[i] == questions[i]);
                }
            }
        }
    }
}

/// A run of records is encoded exactly when each of them can be.
pub proof fn lemma_encode_answers_ok(answers: Seq<AnswerView>)
    ensures
        encode_answers(answers) is Ok <==> answers_encodable(answers),
    decreases answers.len(),
{
    if answers.len() > 0 {
        let before = answers.drop_last();
        lemma_encode_answers_ok(before);
        if answers_encodable(answers) {
            assert forall|i: int| 0 <= i < before.len() implies (#[trigger] before[i]).encodable() by {
                assert(before[i] == answers[i]);
            }
            assert(answers.last().encodable());
        }
        if encode_answers(answers) is Ok {
            assert forall|i: int| 0 <= i < answers.len() implies (
            #[trigger] answers[i]).encodable() by {
                if i < before.len() {
                    assert(before[i] == answers[i]);
                }
            }
        }
    }
}

/// Once the leading questions of a run cannot be encoded, the run cannot,
/// and for the same reason.
pub proof fn lemma_encode_questions_error_stays(questions: Seq<QuestionView>, n: int)
    requires
        0 <= n <= questions.len(),
        encode_questions(questions.take(n)) is Err,
    ensures
        encode_questions(questions) == encode_questions(questions.take(n)),
    decreases questions.len() - n,
{
    if n == questions.len() {
        assert(questions.take(n) =~= questions);
    } else {
        assert(questions.drop_last().take(n) =~= questions.take(n));
        lemma_encode_questions_error_stays(questions.drop_last(), n);
    }
}

/// Once the leading records of a run cannot be encoded, the run cannot, and
/// for the same reason.
pub proof fn lemma_encode_answers_error_stays(answers: Seq<AnswerView>, n: int)
    requires
        0 <= n <= answers.len(),
        encode_answers(answers.take(n)) is Err,
    ensures
        encode_answers(answers) == encode_answers(answers.take(n)),
    decreases answers.len() - n,
{
    if n == answers.len() {
        assert(answers.take(n) =~= answers);
    } else {
        assert(answers.drop_last().take(n) =~= answers.take(n));
        lemma_encode_answers_error_stays(answers.drop_last(), n);
    }
}

/// Once the leading questions cannot be decoded, no longer run can, and for
/// the same reason.
pub proof fn lemma_decode_questions_error_stays(
    buffer: Seq<u8>,
    start: int,
    n: nat,
    count: nat,
    mode: DecodeMode,
)
    requires
        n <= count,
        decode_questions(buffer, start, n, mode) is Err,
    ensures
        decode_questions(buffer, start, count, mode) == decode_questions(buffer, start, n, mode),
    decreases count - n,
{
    if n < count {
        lemma_decode_questions_error_stays(buffer, start, n, (count - 1) as nat, mode);
    }
}

/// Once the leading records cannot be decoded, no longer run can, and for
/// the same reason.
pub proof fn lemma_decode_answers_error_stays(
    buffer: Seq<u8>,
    start: int,
    n: nat,
    count: nat,
    mode: DecodeMode,
)
    requires
        n <= count,
        decode_answers(buffer, start, n, mode) is Err,
    ensures
        decode_answers(buffer, start, count, mode) == decode_answers(buffer, start, n, mode),
    decreases count - n,
{
    if n < count {
        lemma_decode_answers_error_stays(buffer, start, n, (count - 1) as nat, mode);
    }
}

/// The encoded form of a run of canonical questions, wherever it stands in a
/// buffer, decodes to the same questions and ends where the encoded form
/// ends. In strict mode this holds where types and classes are named
/// variants.
pub proof fn lemma_questions_round_trip(
    buffer: Seq<u8>,
    start: int,
    questions: Seq<QuestionView>,
    mode: DecodeMode,
)
    requires
        encode_questions(questions) is Ok,
        questions_canonical(questions),
        mode == DecodeMode::Strict ==> questions_recognized(questions),
        holds_at(buffer, start, encode_questions(questions)->Ok_0),
    ensures
        decode_questions(buffer, start, questions.len(), mode) == Ok::<
            (Seq<QuestionView>, int),
            (DnsError, nat),
        >((questions, start + encode_questions(questions)->Ok_0.len())),
    decreases questions.len(),
{
    if questions.len() == 0 {
        assert(questions =~= Seq::<QuestionView>::empty());
    } else {
        let before = questions.drop_last();
        let last = questions.last();
        let head = encode_questions(before)->Ok_0;
        let tail = encode_question(last)->Ok_0;
        lemma_holds_at_split(buffer, start, head, tail);
        assert forall|i: int| 0 <= i < before.len() implies (#[trigger] before[i]).canonical() by {
            assert(before[i] == questions[i]);
        }
        if mode == DecodeMode::Strict {
            assert forall|i: int| 0 <= i < before.len() implies !((#[trigger] before[i]).qtype
                is Unknown) && !(before[i].qclass is Unknown) by {
                assert(before[i] == questions[i]);
            }
        }
        lemma_questions_round_trip(buffer, start, before, mode);
        lemma_question_round_trip(buffer, start + head.len(), last, mode);
        assert(before.push(last) =~= questions);
    }
}

/// The encoded form of a run of canonical records, wherever it stands in a
/// buffer, decodes to the same records and ends where the encoded form ends.
/// In strict mode this holds where types and classes are named variants.
pub proof fn lemma_answers_round_trip(
    buffer: Seq<u8>,
    start: int,
    answers: Seq<AnswerView>,
    mode: DecodeMode,
)
    requires
        encode_answers(answers) is Ok,
        answers_canonical(answers),
        mode == DecodeMode::Strict ==> answers_recognized(answers),
        holds_at(buffer, start, encode_answers(answers)->Ok_0),
    ensures
        decode_answers(buffer, start, answers.len(), mode) == Ok::<
            (Seq<AnswerView>, int),
            (DnsError, nat),
        >((answers, start + encode_answers(answers)->Ok_0.len())),
    decreases answers.len(),
{
    if answers.len() == 0 {
        assert(answers =~= Seq::<AnswerView>::empty());
    } else {
        let before = answers.drop_last();
        let last = answers.last();
        let head = encode_answers(before)->Ok_0;
        let tail = encode_answer(last)->Ok_0;
        lemma_holds_at_split(buffer, start, head, tail);
        assert forall|i: int| 0 <= i < before.len() implies (#[trigger] before[i]).canonical() by {
            assert(before[i] == answers[i]);
        }
        if mode == DecodeMode::Strict {
            assert forall|i: int| 0 <= i < before.len() implies !((#[trigger] before[i]).rtype
                is Unknown) && !(before[i].rclass is Unknown) by {
                assert(before[i] == answers[i]);
            }
        }
        lemma_answers_round_trip(buffer, start, before, mode);
        lemma_answer_round_trip(buffer, start + head.len(), last, mode);
        assert(before.push(last) =~= answers);
    }
}

/// Every record of the run has data that fits the 16-bit length field.
pub open spec fn answers_data_fit(answers: Seq<AnswerView>) -> bool {
    forall|i: int| 0 <= i < answers.len() ==> (#[trigger] answers[i]).rdata.len() <= 0xFFFF
}

/// Decoded questions are as many as were asked for and canonical, and in
/// strict mode have named types and classes.
pub proof fn lemma_decoded_questions(buffer: Seq<u8>, start: int, count: nat, mode: DecodeMode)
    requires
        decode_questions(buffer, start, count, mode) is Ok,
    ensures
        decode_questions(buffer, start, count, mode)->Ok_0.0.len() == count,
        questions_canonical(decode_questions(buffer, start, count, mode)->Ok_0.0),
        mode == DecodeMode::Strict ==> questions_recognized(
            decode_questions(buffer, start, count, mode)->Ok_0.0,
        ),
    decreases count,
{
    if count > 0 {
        let (before, pos) = decode_questions(buffer, start, (count - 1) as nat, mode)->Ok_0;
        lemma_decoded_questions(buffer, start, (count - 1) as nat, mode);
        lemma_decoded_question(buffer, pos, mode);
        let last = decode_question(buffer, pos, mode)->Ok_0.0;
        let all = before.push(last);
        assert forall|i: int| 0 <= i < all.len() implies (#[trigger] all[i]).canonical() by {
            if i < before.len() {
                assert(all[i] == before[i]);
            }
        }
        if mode == DecodeMode::Strict {
            assert forall|i: int| 0 <= i < all.len() implies !((#[trigger] all[i]).qtype is Unknown)
                && !(all[i].qclass is Unknown) by {
                if i < before.len() {
                    assert(all[i] == before[i]);
                }
            }
        }
    }
}

/// Decoded records are as many as were asked for and canonical, their data
/// fits the length field, and in strict mode they have named types and
/// classes.
pub proof fn lemma_decoded_answers(buffer: Seq<u8>, start: int, count: nat, mode: DecodeMode)
    requires
        decode_answers(buffer, start, count, mode) is Ok,
    ensures
        decode_answers(buffer, start, count, mode)->Ok_0.0.len() == count,
        answers_canonical(decode_answers(buffer, start, count, mode)->Ok_0.0),
        answers_data_fit(decode_answers(buffer, start, count, mode)->Ok_0.0),
        mode == DecodeMode::Strict ==> answers_recognized(
            decode_answers(buffer, start, count, mode)->Ok_0.0,
        ),
    decreases count,
{
    if count > 0 {
        let (before, pos) = decode_answers(buffer, start, (count - 1) as nat, mode)->Ok_0;
        lemma_decoded_answers(buffer, start, (count - 1) as nat, mode);
        lemma_decoded_answer(buffer, pos, mode);
        let last = decode_answer(buffer, pos, mode)->Ok_0.0;
        let all = before.push(last);
        assert forall|i: int| 0 <= i < all.len() implies (#[trigger] all[i]).canonical()
            && all[i].rdata.len() <= 0xFFFF by {
            if i < before.len() {
                assert(all[i] == before[i]);
            }
        }
        if mode == DecodeMode::Strict {
            assert forall|i: int| 0 <= i < all.len() implies !((#[trigger] all[i]).rtype is Unknown)
                && !(all[i].rclass is Unknown) by {
                if i < before.len() {
                    assert(all[i] == before[i]);
                }
            }
        }
    }
}

/// Appends the encoded form of each question to `out`.
pub fn write_questions(out: &mut Vec<u8>, questions: &Vec<Question>) -> (result: Result<
    (),
    DnsError,
>)
    ensures
        match encode_questions(questions_view(questions@)) {
            Ok(bytes) => result is Ok && final(out)@ == old(out)@ + bytes,
            Err(e) => result == Err::<(), DnsError>(e),
        },
{
    let ghost all = questions_view(questions@);
    let count = questions.len();
    let mut i: usize = 0;
    assert(all.take(0) =~= Seq::<QuestionView>::empty());
    while i < count
        invariant
            count == questions@.len(),
            all == questions_view(questions@),
            i <= count,
            encode_questions(all.take(i as int)) is Ok,
            out@ == old(out)@ + encode_questions(all.take(i as int))->Ok_0,
        decreases count - i,
    {
        let ghost run = all.take(i + 1);
        assert(run.drop_last() =~= all.take(i as int));
        assert(run.last() == questions@[i as int]@);
        match questions[i].to_bytes() {
            Err(e) => {
                proof {
                    lemma_encode_questions_error_stays(all, i + 1);
                }
                return Err(e);
            },
            Ok(mut bytes) => {
                out.append(&mut bytes);
            },
        }
        i += 1;
    }
    assert(all.take(count as int) =~= all);
    Ok(())
}

/// Appends the encoded form of each record to `out`.
pub fn write_answers(out: &mut Vec<u8>, answers: &Vec<Answer>) -> (result: Result<(), DnsError>)
    ensures
        match encode_answers(answers_view(answers@)) {
            Ok(bytes) => result is Ok && final(out)@ == old(out)@ + bytes,
            Err(e) => result == Err::<(), DnsError>(e),
        },
{
    let ghost all = answers_view(answers@);
    let count = answers.len();
    let mut i: usize = 0;
    assert(all.take(0) =~= Seq::<AnswerView>::empty());
    while i < count
        invariant
            count == answers@.len(),
            all == answers_view(answers@),
            i <= count,
            encode_answers(all.take(i as int)) is Ok,
            out@ == old(out)@ + encode_answers(all.take(i as int))->Ok_0,
        decreases count - i,
    {
        let ghost run = all.take(i + 1);
        assert(run.drop_last() =~= all.take(i as int));
        assert(run.last() == answers@[i as int]@);
        match answers[i].to_bytes() {
            Err(e) => {
                proof {
                    lemma_encode_answers_error_stays(all, i + 1);
                }
                return Err(e);
            },
            Ok(mut bytes) => {
                out.append(&mut bytes);
            },
        }
        i += 1;
    }
    assert(all.take(count as int) =~= all);
    Ok(())
}

/// Decodes `count` questions that stand one behind the other from `start`.
/// An error comes with the index of the question that caused it.
pub fn read_questions(buffer: &[u8], start: usize, count: u16, mode: DecodeMode) -> (result: Result<
    (Vec<Question>, usize),
    (DnsError, u16),
>)
    ensures
        match result {
            Ok((questions, end)) => (start <= buffer@.len() ==> end <= buffer@.len())
                && decode_questions(
                buffer@,
                start as int,
                count as nat,
                mode,
            ) == Ok::<(Seq<QuestionView>, int), (DnsError, nat)>(
                (questions_view(questions@), end as int),
            ),
            Err((e, index)) => decode_questions(buffer@, start as int, count as nat, mode) == Err::<
                (Seq<QuestionView>, int),
                (DnsError, nat),
            >((e, index as nat)),
        },
{
    let mut questions: Vec<Question> = Vec::new();
    let mut pos: usize = start;
    let mut i: u16 = 0;
    assert(questions_view(questions@) =~= Seq::<QuestionView>::empty());
    while i < count
        invariant
            i <= count,
            start <= buffer@.len() ==> pos <= buffer@.len(),
            decode_questions(buffer@, start as int, i as nat, mode) == Ok::<
                (Seq<QuestionView>, int),
                (DnsError, nat),
            >((questions_view(questions@), pos as int)),
        decreases count - i,
    {
        match Question::parse(buffer, pos, mode) {
            Err(e) => {
                proof {
                    lemma_decode_questions_error_stays(
                        buffer@,
                        start as int,
                        (i + 1) as nat,
                        count as nat,
                        mode,
                    );
                }
                return Err((e, i));
            },
            Ok((question, end)) => {
                proof {
                    assert(questions_view(questions@.push(question)) =~= questions_view(
                        questions@,
                    ).push(question@));
                }
                questions.push(question);
                pos = end;
            },
        }
        i += 1;
    }
    Ok((questions, pos))
}

/// Decodes `count` records that stand one behind the other from `start`. An
/// error comes with the index of the record that caused it.
pub fn read_answers(buffer: &[u8], start: usize, count: u16, mode: DecodeMode) -> (result: Result<
    (Vec<Answer>, usize),
    (DnsError, u16),
>)
    ensures
        match result {
            Ok((answers, end)) => (start <= buffer@.len() ==> end <= buffer@.len())
                && decode_answers(
                buffer@,
                start as int,
                count as nat,
                mode,
            ) == Ok::<(Seq<AnswerView>, int), (DnsError, nat)>(
                (answers_view(answers@), end as int),
            ),
            Err((e, index)) => decode_answers(buffer@, start as int, count as nat, mode) == Err::<
                (Seq<AnswerView>, int),
                (DnsError, nat),
            >((e, index as nat)),
        },
{
    let mut answers: Vec<Answer> = Vec::new();
    let mut pos: usize = start;
    let mut i: u16 = 0;
    assert(answers_view(answers@) =~= Seq::<AnswerView>::empty());
    while i < count
        invariant
            i <= count,
            start <= buffer@.len() ==> pos <= buffer@.len(),
            decode_answers(buffer@, start as int, i as nat, mode) == Ok::<
                (Seq<AnswerView>, int),
                (DnsError, nat),
            >((answers_view(answers@), pos as int)),
        decreases count - i,
    {
        match Answer::parse(buffer, pos, mode) {
            Err(e) => {
                proof {
                    lemma_decode_answers_error_stays(
                        buffer@,
                        start as int,
                        (i + 1) as nat,
                        count as nat,
                        mode,
                    );
                }
                return Err((e, i));
            },
            Ok((answer, end)) => {
                proof {
                    assert(answers_view(answers@.push(answer)) =~= answers_view(answers@).push(
                        answer@,
                    ));
                }
                answers.push(answer);
                pos = end;
            },
        }
        i += 1;
    }
    Ok((answers, pos))
}

} // verus!
