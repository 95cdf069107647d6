//! The decisions of the forwarding resolver: which queries go to the
//! upstream resolver, and which reply goes back to the client.
//!
//! Nothing here sends or receives. The caller performs each `Action::Send`
//! and hands back what came of it; the reply depends on the request and on
//! those outcomes alone.

use crate::answer::{Answer, AnswerView};
use crate::code::{ResourceClass, ResourceType};
use crate::flags::Flags;
use crate::message::{copy_questions, Message, MessageView};
use crate::question::QuestionView;
use crate::section::{answers_view, questions_view};
use vstd::prelude::*;

verus! {

/// Seconds for which a synthesized answer may be kept.
pub const STUB_TTL: u32 = 60;

/// The address that every synthesized answer holds.
pub open spec fn stub_address() -> Seq<u8> {
    seq![8u8, 8u8, 8u8, 8u8]
}

/// The flags of a reply: those given, marked as a response.
pub open spec fn reply_flags(flags: Flags) -> Flags {
    Flags { is_response: true, ..flags }
}

/// The flags of a query: those given, marked as a query.
pub open spec fn query_flags(flags: Flags) -> Flags {
    Flags { is_response: false, ..flags }
}

/// The answer that is synthesized for a question where no upstream
/// resolver is configured: an address record for the question's name.
pub open spec fn stub_answer(question: QuestionView) -> AnswerView {
    AnswerView {
        name: question.name,
        rtype: ResourceType::A,
        rclass: ResourceClass::IN,
        ttl: STUB_TTL,
        rdata: stub_address(),
    }
}

/// A reply to `request` that repeats its id, flags and questions and holds
/// the given answers and nothing else.
pub open spec fn reply_with(request: MessageView, answers: Seq<AnswerView>) -> MessageView {
    MessageView {
        id: request.id,
        flags: reply_flags(request.flags),
        questions: request.questions,
        answers,
        name_servers: Seq::empty(),
        additional: Seq::empty(),
    }
}

/// The reply where no upstream resolver is configured: one synthesized
/// answer for each question, in the order of the questions.
pub open spec fn stub_reply(request: MessageView) -> MessageView {
    reply_with(request, request.questions.map_values(|question: QuestionView| stub_answer(question)))
}

/// The query that is sent upstream for the question at `index`. A request
/// with one question is passed on whole, marked as a query. For any other
/// request each question travels alone, under the id and flags of the
/// request.
pub open spec fn query_at(request: MessageView, index: int) -> MessageView {
    if request.questions.len() == 1 {
        MessageView { flags: query_flags(request.flags), ..request }
    } else {
        MessageView {
            id: request.id,
            flags: request.flags,
            questions: seq![request.questions[index]],
            answers: Seq::empty(),
            name_servers: Seq::empty(),
            additional: Seq::empty(),
        }
    }
}

/// The first answer of each response that has one, in the order of the
/// responses. `None` stands for a query that brought no response.
pub open spec fn first_answers(responses: Seq<Option<MessageView>>) -> Seq<AnswerView>
    decreases responses.len(),
{
    if responses.len() == 0 {
        Seq::empty()
    } else {
        let before = first_answers(responses.drop_last());
        match responses.last() {
            Some(response) => if response.answers.len() > 0 {
                before.push(response.answers[0])
            } else {
                before
            },
            None => before,
        }
    }
}

/// The reply where an upstream resolver is configured, given what came back
/// for each query in turn. The response to a request with one question is
/// passed back whole, marked as a response. Otherwise the reply repeats the
/// request's questions and holds the first answer of each response that has
/// one; a question without such a response gets no answer.
pub open spec fn forwarded_reply(
    request: MessageView,
    responses: Seq<Option<MessageView>>,
) -> MessageView {
    if request.questions.len() == 1 && responses.len() >= 1 && responses[0] is Some {
        let response = responses[0]->Some_0;
        MessageView { flags: reply_flags(response.flags), ..response }
    } else {
        reply_with(request, first_answers(responses))
    }
}

/// The responses that executable responses view as.
pub open spec fn responses_view(responses: Seq<Option<Message>>) -> Seq<Option<MessageView>> {
    responses.map_values(
        |response: Option<Message>|
            match response {
                Some(message) => Some(message@),
                None => None,
            },
    )
}

/// Without an upstream resolver every question gets exactly one answer: an
/// address record under the question's own name.
pub proof fn theorem_stub_answers_each_question(request: MessageView)
    ensures
        stub_reply(request).questions == request.questions,
        stub_reply(request).answers.len() == request.questions.len(),
        forall|i: int|
            0 <= i < request.questions.len() ==> {
                let answer = #[trigger] stub_reply(request).answers[i];
                &&& answer.name == request.questions[i].name
                &&& answer.rtype == ResourceType::A
                &&& answer.rclass == ResourceClass::IN
            },
        stub_reply(request).id == request.id,
        stub_reply(request).flags.is_response,
{
}

/// Where every query brought a response with an answer, the reply holds one
/// answer for each question, in the order of the questions: the first answer
/// of each response.
pub proof fn theorem_every_answer_in_order(responses: Seq<Option<MessageView>>)
    requires
        forall|i: int|
            0 <= i < responses.len() ==> (#[trigger] responses[i]) is Some
                && responses[i]->Some_0.answers.len() >= 1,
    ensures
        first_answers(responses).len() == responses.len(),
        forall|i: int|
            0 <= i < responses.len() ==> (#[trigger] first_answers(responses)[i])
                == responses[i]->Some_0.answers[0],
    decreases responses.len(),
{
    if responses.len() > 0 {
        let before = responses.drop_last();
        assert forall|i: int| 0 <= i < before.len() implies (#[trigger] before[i]) is Some
            && before[i]->Some_0.answers.len() >= 1 by {
            assert(before[i] == responses[i]);
        }
        theorem_every_answer_in_order(before);
        assert(responses.last() == responses[responses.len() - 1]);
        assert forall|i: int| 0 <= i < responses.len() implies (#[trigger] first_answers(
            responses,
        )[i]) == responses[i]->Some_0.answers[0] by {
            if i < before.len() {
                assert(first_answers(before)[i] == before[i]->Some_0.answers[0]);
                assert(before[i] == responses[i]);
            }
        }
    }
}

/// Where no query brought a response with an answer, the reply holds no
/// answer.
pub proof fn theorem_no_answer_without_response(responses: Seq<Option<MessageView>>)
    requires
        forall|i: int|
            0 <= i < responses.len() ==> ((#[trigger] responses[i]) matches Some(response)
                ==> response.answers.len() == 0),
    ensures
        first_answers(responses) == Seq::<AnswerView>::empty(),
    decreases responses.len(),
{
    if responses.len() > 0 {
        let before = responses.drop_last();
        assert forall|i: int| 0 <= i < before.len() implies ((#[trigger] before[i]) matches Some(
            response,
        ) ==> response.answers.len() == 0) by {
            assert(before[i] == responses[i]);
        }
        theorem_no_answer_without_response(before);
        assert(responses.last() == responses[responses.len() - 1]);
    }
}

/// A request with two questions, of which the upstream resolver answers the
/// first and not the second, gets a reply with both questions in their
/// order and exactly one answer: the first answer to the first question.
pub proof fn theorem_unanswered_question_is_omitted(
    request: MessageView,
    first: MessageView,
    second: Option<MessageView>,
)
    requires
        request.questions.len() == 2,
        first.answers.len() >= 1,
        second matches Some(response) ==> response.answers.len() == 0,
    ensures
        forwarded_reply(request, seq![Some(first), second]).questions == request.questions,
        forwarded_reply(request, seq![Some(first), second]).answers == seq![first.answers[0]],
        forwarded_reply(request, seq![Some(first), second]).flags.is_response,
{
    let responses = seq![Some(first), second];
    let head = responses.drop_last();
    assert(head =~= seq![Some(first)]);
    assert(head.drop_last() =~= Seq::<Option<MessageView>>::empty());
    assert(first_answers(head.drop_last()) =~= Seq::<AnswerView>::empty());
    assert(first_answers(head) =~= seq![first.answers[0]]);
    assert(first_answers(responses) =~= seq![first.answers[0]]);
}

/// The four bytes of the canned address.
fn stub_rdata() -> (rdata: Vec<u8>)
    ensures
        rdata@ == stub_address(),
{
    let mut rdata: Vec<u8> = Vec::new();
    rdata.push(8);
    rdata.push(8);
    rdata.push(8);
    rdata.push(8);
    assert(rdata@ =~= stub_address());
    rdata
}

/// The given flags, marked as a response or as a query.
fn with_response_bit(flags: Flags, is_response: bool) -> (marked: Flags)
    ensures
        marked == (Flags { is_response, ..flags }),
{
    Flags {
        is_response,
        opcode: flags.opcode,
        authoritative: flags.authoritative,
        truncated: flags.truncated,
        recursion_desired: flags.recursion_desired,
        recursion_available: flags.recursion_available,
        reserved: flags.reserved,
        response_code: flags.response_code,
    }
}

/// A reply to `request` with the given answers.
fn make_reply(request: &Message, answers: Vec<Answer>) -> (reply: Message)
    ensures
        reply@ == reply_with(request@, answers_view(answers@)),
{
    let reply = Message {
        id: request.id,
        flags: with_response_bit(request.flags, true),
        questions: copy_questions(&request.questions),
        answers,
        name_servers: Vec::new(),
        additional: Vec::new(),
    };
    proof {
        assert(answers_view(reply.name_servers@) =~= Seq::<AnswerView>::empty());
        assert(answers_view(reply.additional@) =~= Seq::<AnswerView>::empty());
    }
    reply
}

/// Builds the reply for a request where no upstream resolver is configured.
pub fn synthesize_reply(request: &Message) -> (reply: Message)
    ensures
        reply@ == stub_reply(request@),
{
    let ghost asked = request@.questions;
    let ghost wanted = asked.map_values(|question: QuestionView| stub_answer(question));
    let mut answers: Vec<Answer> = Vec::new();
    let count = request.questions.len();
    let mut i: usize = 0;
    while i < count
        invariant
            count == request.questions@.len(),
            asked == request@.questions,
            wanted == asked.map_values(|question: QuestionView| stub_answer(question)),
            i <= count,
            answers_view(answers@) == wanted.take(i as int),
        decreases count - i,
    {
        let answer = Answer {
            name: request.questions[i].name.clone(),
            rtype: ResourceType::A,
            rclass: ResourceClass::IN,
            ttl: STUB_TTL,
            rdata: stub_rdata(),
        };
        proof {
            assert(asked[i as int] == request.questions@[i as int]@);
            assert(answer@ == stub_answer(asked[i as int]));
            assert(wanted.take(i + 1) =~= wanted.take(i as int).push(wanted[i as int]));
            assert(answers_view(answers@.push(answer)) =~= answers_view(answers@).push(answer@));
        }
        answers.push(answer);
        i += 1;
    }
    assert(wanted.take(count as int) =~= wanted);
    make_reply(request, answers)
}

/// Builds the query that goes upstream for the question at `index`, if the
/// request has such a question.
pub fn outbound_query(request: &Message, index: usize) -> (query: Option<Message>)
    ensures
        index < request@.questions.len() ==> query is Some && query->Some_0@ == query_at(
            request@,
            index as int,
        ),
        index >= request@.questions.len() ==> query is None,
{
    if index >= request.questions.len() {
        return None;
    }
    if request.questions.len() == 1 {
        let mut query = request.clone();
        query.flags = with_response_bit(request.flags, false);
        Some(query)
    } else {
        let mut query = Message {
            id: request.id,
            flags: request.flags,
            questions: Vec::new(),
            answers: Vec::new(),
            name_servers: Vec::new(),
            additional: Vec::new(),
        };
        proof {
            assert(questions_view(query.questions@) =~= Seq::<QuestionView>::empty());
            assert(answers_view(query.answers@) =~= Seq::<AnswerView>::empty());
        }
        query.add_question(request.questions[index].clone());
        proof {
            assert(query@.questions =~= seq![request@.questions[index as int]]);
        }
        Some(query)
    }
}

/// Builds the reply for a request from what came back for its queries, in
/// the order in which the queries were built.
pub fn merge_replies(request: &Message, responses: &Vec<Option<Message>>) -> (reply: Message)
    ensures
        reply@ == forwarded_reply(request@, responses_view(responses@)),
{
    let ghost all = responses_view(responses@);
    if request.questions.len() == 1 && responses.len() >= 1 {
        match &responses[0] {
            Some(response) => {
                assert(all[0] == Some(response@));
                let mut reply = response.clone();
                reply.flags = with_response_bit(response.flags, true);
                return reply;
            },
            None => {
                assert(all[0] is None);
            },
        }
    }
    let mut answers: Vec<Answer> = Vec::new();
    let count = responses.len();
    let mut i: usize = 0;
    assert(all.take(0) =~= Seq::<Option<MessageView>>::empty());
    assert(answers_view(answers@) =~= Seq::<AnswerView>::empty());
    while i < count
        invariant
            count == responses@.len(),
            all == responses_view(responses@),
            i <= count,
            answers_view(answers@) == first_answers(all.take(i as int)),
        decreases count - i,
    {
        let ghost run = all.take(i + 1);
        assert(run.drop_last() =~= all.take(i as int));
        assert(run.last() == all[i as int]);
        match &responses[i] {
            Some(response) => {
                assert(all[i as int] == Some(response@));
                if response.answers.len() > 0 {
                    let answer = response.answers[0].clone();
                    proof {
                        assert(response@.answers[0] == response.answers@[0]@);
                        assert(answers_view(answers@.push(answer)) =~= answers_view(answers@).push(
                            answer@,
                        ));
                    }
                    answers.push(answer);
                }
            },
            None => {
                assert(all[i as int] is None);
            },
        }
        i += 1;
    }
    assert(all.take(count as int) =~= all);
    make_reply(request, answers)
}

/// What the caller is to do next.
#[derive(Debug, PartialEq, Eq)]
pub enum Action {
    /// Send this query to the upstream resolver, and report what came of it.
    Send(Message),
    /// Send this reply to the client; the request is done.
    Reply(Message),
}

/// The handling of one request: the request, whether an upstream resolver
/// is configured, and what has come back from it so far.
pub struct Resolver {
    upstream: bool,
    request: Message,
    responses: Vec<Option<Message>>,
}

impl Resolver {
    /// No more responses are held than the request has questions, and none
    /// without an upstream resolver.
    #[verifier::type_invariant]
    spec fn well_formed(self) -> bool {
        &&& self.responses@.len() <= self.request@.questions.len()
        &&& !self.upstream ==> self.responses@.len() == 0
    }

    /// The request that is being handled.
    pub closed spec fn request(self) -> MessageView {
        self.request@
    }

    /// Whether an upstream resolver is configured.
    pub closed spec fn upstream(self) -> bool {
        self.upstream
    }

    /// What has come back from the upstream resolver so far, one entry for
    /// each query that was sent: the response, or `None` where none came.
    pub closed spec fn responses(self) -> Seq<Option<MessageView>> {
        responses_view(self.responses@)
    }

    /// A query is still to be sent: an upstream resolver is configured and
    /// not every question has had its turn.
    pub open spec fn pending(self) -> bool {
        self.upstream() && self.responses().len() < self.request().questions.len()
    }

    /// The reply that the request gets, once nothing is pending.
    pub open spec fn reply(self) -> MessageView {
        if self.upstream() {
            forwarded_reply(self.request(), self.responses())
        } else {
            stub_reply(self.request())
        }
    }

    /// Starts the handling of a request.
    pub fn new(request: Message, upstream: bool) -> (resolver: Resolver)
        ensures
            resolver.request() == request@,
            resolver.upstream() == upstream,
            resolver.responses() == Seq::<Option<MessageView>>::empty(),
    {
        let resolver = Resolver { upstream, request, responses: Vec::new() };
        assert(responses_view(resolver.responses@) =~= Seq::<Option<MessageView>>::empty());
        resolver
    }

    /// What is to be done in the present state: the next query to send
    /// upstream while one is pending, and the reply to the client once none
    /// is.
    pub fn next_action(&self) -> (action: Action)
        ensures
            self.pending() ==> (action matches Action::Send(query) && query@ == query_at(
                self.request(),
                self.responses().len() as int,
            )),
            !self.pending() ==> (action matches Action::Reply(reply) && reply@ == self.reply()),
            self.responses().len() <= self.request().questions.len(),
    {
        proof {
            use_type_invariant(self);
        }
        if !self.upstream {
            return Action::Reply(synthesize_reply(&self.request));
        }
        match outbound_query(&self.request, self.responses.len()) {
            Some(query) => Action::Send(query),
            None => Action::Reply(merge_replies(&self.request, &self.responses)),
        }
    }

    /// The state after the query that was sent last has had its outcome: the
    /// decoded response, or `None` where none came or it could not be
    /// decoded. With no query pending the state stays as it is.
    pub fn on_response(self, response: Option<Message>) -> (next: Resolver)
        ensures
            next.request() == self.request(),
            next.upstream() == self.upstream(),
            self.pending() ==> next.responses() == self.responses().push(
                match response {
                    Some(message) => Some(message@),
                    None => None,
                },
            ),
            !self.pending() ==> next.responses() == self.responses(),
    {
        proof {
            use_type_invariant(&self);
        }
        let Resolver { upstream, request, mut responses } = self;
        if upstream && responses.len() < request.questions.len() {
            proof {
                assert(responses_view(responses@.push(response)) =~= responses_view(
                    responses@,
                ).push(
                    match response {
                        Some(message) => Some(message@),
                        None => None,
                    },
                ));
            }
            responses.push(response);
        }
        Resolver { upstream, request, responses }
    }
}

} // verus!
