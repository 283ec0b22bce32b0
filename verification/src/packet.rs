//! Requests and the replies to them.
use crate::blocklist;
use crate::message;
use crate::message::{Header, Message, MessageView, WireError};
use crate::record;
use crate::record::{Query, QueryView, RData, RDataView, Record, RecordView};
use crate::resolver::recursive;
use crate::resolver::types::{OutcomeView, ResolutionOutcome, ResolutionStatus};
use crate::text;
use std::time::Duration;
use vstd::prelude::*;

verus! {

/// The TTL of the records that answer a blocked question, in seconds.
pub const BLOCKED_TTL: u32 = 60;

/// How upstream servers are dealt with.
#[derive(Debug, Clone, Copy)]
pub struct ResolverRuntimeConfig {
    /// How long to wait for the response of a server.
    pub upstream_timeout: Duration,
    /// How many requests may wait for a response at a time.
    pub max_pending_upstreams: usize,
}

/// How questions are resolved, by the argument that says so: from the root servers down, by
/// forwarding, or neither.
pub open spec fn mode_of(argument: Seq<char>) -> Option<bool> {
    if argument == seq!['0'] {
        Some(true)
    } else if argument == seq!['1'] {
        Some(false)
    } else {
        None
    }
}

/// Whether questions are resolved from the root servers down, by the argument that says so.
pub fn parse_mode(argument: &str) -> (r: Option<bool>)
    ensures
        r == mode_of(argument@),
{
    let chars = text::characters(argument);
    if chars.len() == 1 && chars[0] == '0' {
        assert(argument@ =~= seq!['0']);
        Some(true)
    } else if chars.len() == 1 && chars[0] == '1' {
        assert(argument@ =~= seq!['1']);
        Some(false)
    } else {
        None
    }
}

/// The response code for a status.
pub open spec fn code_of(status: ResolutionStatus) -> u16 {
    match status {
        ResolutionStatus::NoError => message::NO_ERROR,
        ResolutionStatus::NxDomain => message::NX_DOMAIN,
        _ => message::SERV_FAIL,
    }
}

/// The response code for a status.
pub fn map_status(status: ResolutionStatus) -> (r: u16)
    ensures
        r == code_of(status),
{
    match status {
        ResolutionStatus::NoError => message::NO_ERROR,
        ResolutionStatus::NxDomain => message::NX_DOMAIN,
        ResolutionStatus::ServFail | ResolutionStatus::Timeout | ResolutionStatus::Malformed =>
            message::SERV_FAIL,
    }
}

/// The address that a blocked question of a type is answered with: the one that leads nowhere.
pub open spec fn blocked_address(query_type: u16) -> Option<RDataView> {
    if query_type == record::TYPE_A {
        Some(RDataView::A(0))
    } else if query_type == record::TYPE_AAAA {
        Some(RDataView::AAAA(0))
    } else {
        None
    }
}

/// The outcome for a blocked question.
pub open spec fn blocked_view(question: QueryView) -> OutcomeView {
    OutcomeView {
        status: ResolutionStatus::NoError,
        answers: match blocked_address(question.query_type) {
            Some(data) => seq![
                RecordView {
                    name: question.name,
                    class: record::CLASS_IN,
                    ttl: BLOCKED_TTL,
                    data,
                },
            ],
            None => seq![],
        },
        authorities: seq![],
    }
}

/// The outcome for a blocked question.
pub fn blocked_outcome(question: &Query) -> (r: ResolutionOutcome)
    ensures
        r@ == blocked_view(question@),
{
    let mut answers: Vec<Record> = Vec::new();
    let data = if question.query_type == record::TYPE_A {
        Some(RData::A(0))
    } else if question.query_type == record::TYPE_AAAA {
        Some(RData::AAAA(0))
    } else {
        None
    };
    match data {
        Some(data) => {
            answers.push(
                Record {
                    name: question.name.clone(),
                    class: record::CLASS_IN,
                    ttl: BLOCKED_TTL,
                    data,
                },
            );
        },
        None => {},
    }
    let r = ResolutionOutcome::noerror(answers, Vec::new());
    assert(r@.answers =~= blocked_view(question@).answers);
    assert(r@.authorities =~= seq![]);
    r
}

/// The reply to a request: it bears the identifier and the operation of the request and repeats
/// whether recursion is desired and the question; the outcome gives the code and the records.
pub open spec fn reply_message(
    request: Header,
    question: QueryView,
    outcome: OutcomeView,
) -> MessageView {
    MessageView {
        header: Header {
            id: request.id,
            response: true,
            op_code: request.op_code,
            authoritative: false,
            truncation: false,
            recursion_desired: request.recursion_desired,
            recursion_available: false,
            authentic_data: false,
            checking_disabled: false,
            response_code: code_of(outcome.status),
        },
        queries: seq![question],
        answers: outcome.answers,
        authorities: outcome.authorities,
        additionals: seq![],
        edns: None,
    }
}

/// The octets of the reply to a request.
pub fn build_response(
    request: &Message,
    question: &Query,
    outcome: ResolutionOutcome,
) -> (r: Result<Vec<u8>, WireError>)
    requires
        question@.wf(),
        outcome@.wf(),
    ensures
        ({
            let reply = reply_message(request.header, question@, outcome@);
            match r {
                Ok(octets) => {
                    &&& message::encoded(reply) == Some(octets@)
                    &&& request.header.op_code < 16 ==> reply.heads(octets@)
                    &&& reply.small() ==> message::decoded(octets@) == Some(reply)
                    &&& message::reads_back(reply, octets@)
                },
                Err(e) => message::encoded(reply) is None && !reply.small() && e is Encode,
            }
        }),
{
    let header = Header {
        id: request.header.id,
        response: true,
        op_code: request.header.op_code,
        authoritative: false,
        truncation: false,
        recursion_desired: request.header.recursion_desired,
        recursion_available: false,
        authentic_data: false,
        checking_disabled: false,
        response_code: map_status(outcome.status),
    };
    let reply = Message {
        header,
        queries: vec![question.clone()],
        answers: outcome.answers,
        authorities: outcome.authorities,
        additionals: Vec::new(),
        edns: None,
    };
    proof {
        let expected = reply_message(request.header, question@, outcome@);
        assert(reply@.queries =~= expected.queries);
        assert(reply@.additionals =~= expected.additionals);
        assert(reply@ == expected);
    }
    message::encode(reply)
}

/// What a request asks, by its octets: the message and its first question, if there are such.
pub open spec fn asks(packet: Seq<u8>) -> Option<(MessageView, QueryView)> {
    match message::decoded(packet) {
        Some(m) => if m.queries.len() > 0 {
            Some((m, m.queries[0]))
        } else {
            None
        },
        None => None,
    }
}

/// The octets of the reply that the server failed, to a request given by its octets. There is
/// one for every message with a question.
pub fn servfail_response_for_packet(packet: &[u8]) -> (r: Option<Vec<u8>>)
    ensures
        match asks(packet@) {
            Some((request, question)) => {
                let reply = reply_message(
                    request.header,
                    question,
                    OutcomeView::failed(ResolutionStatus::ServFail),
                );
                &&& r is Some
                &&& message::encoded(reply) == Some(r->0@)
                &&& message::decoded(r->0@) == Some(reply)
                &&& reply.heads(r->0@)
            },
            None => r is None,
        },
{
    let request = match message::decode(packet) {
        Ok(request) => request,
        Err(_) => return None,
    };
    if request.queries.len() == 0 {
        return None;
    }
    let question = request.queries[0].clone();
    assert(request@.queries[0] == question@);
    let outcome = ResolutionOutcome::with_status(ResolutionStatus::ServFail, Vec::new());
    assert(outcome@.authorities =~= seq![]);
    assert(outcome@ == OutcomeView::failed(ResolutionStatus::ServFail));
    match build_response(&request, &question, outcome) {
        Ok(octets) => Some(octets),
        Err(_) => None,
    }
}

/// What to do about a request.
#[derive(Debug)]
pub enum Reaction {
    /// Send this reply: the question is blocked.
    Reply(Vec<u8>),
    /// Resolve the question, and reply with the outcome.
    Resolve { request: Message, question: Query },
}

/// Why a request gets no reply.
#[derive(Debug)]
pub enum PacketError {
    /// It is no message.
    Malformed(WireError),
    /// It asks nothing.
    NoQuestion,
    /// The reply has no wire form.
    Unwritable(WireError),
}

/// What to do about a request whose first question is blocked or not.
pub fn react(request: Message, blocked: bool) -> (r: Result<Reaction, PacketError>)
    requires
        request@.wf(),
        request.header.op_code < 16,
    ensures
        request@.queries.len() == 0 ==> r == Err::<Reaction, PacketError>(PacketError::NoQuestion),
        request@.queries.len() > 0 && blocked ==> {
            let reply = reply_message(
                request.header,
                request@.queries[0],
                blocked_view(request@.queries[0]),
            );
            &&& r is Ok
            &&& r->Ok_0 is Reply
            &&& message::encoded(reply) == Some(r->Ok_0->Reply_0@)
            &&& message::decoded(r->Ok_0->Reply_0@) == Some(reply)
            &&& reply.heads(r->Ok_0->Reply_0@)
        },
        request@.queries.len() > 0 && !blocked ==> {
            &&& r is Ok
            &&& r->Ok_0 is Resolve
            &&& r->Ok_0->request@ == request@
            &&& r->Ok_0->question@ == request@.queries[0]
        },
{
    if request.queries.len() == 0 {
        return Err(PacketError::NoQuestion);
    }
    let question = request.queries[0].clone();
    assert(request@.queries[0] == question@);
    if blocked {
        let outcome = blocked_outcome(&question);
        match build_response(&request, &question, outcome) {
            Ok(octets) => Ok(Reaction::Reply(octets)),
            Err(e) => Err(PacketError::Unwritable(e)),
        }
    } else {
        Ok(Reaction::Resolve { request, question })
    }
}

/// What to do about a request given by its octets.
pub fn handle_request(packet: &[u8], blocklist: &Vec<String>) -> (r: Result<Reaction, PacketError>)
    ensures
        match asks(packet@) {
            Some((request, question)) => if blocklist::blocked_name(blocklist@, question.name) {
                let reply = reply_message(request.header, question, blocked_view(question));
                &&& r is Ok
                &&& r->Ok_0 is Reply
                &&& message::encoded(reply) == Some(r->Ok_0->Reply_0@)
                &&& message::decoded(r->Ok_0->Reply_0@) == Some(reply)
                &&& reply.heads(r->Ok_0->Reply_0@)
            } else {
                &&& r is Ok
                &&& r->Ok_0 is Resolve
                &&& r->Ok_0->request@ == request
                &&& r->Ok_0->request@.wf()
                &&& r->Ok_0->question@ == question
            },
            None => {
                &&& r is Err
                &&& r->Err_0 is Malformed <==> message::decoded(packet@) is None
                &&& r->Err_0 is NoQuestion <==> message::decoded(packet@) is Some
            },
        },
{
    let request = match message::decode(packet) {
        Ok(request) => request,
        Err(e) => return Err(PacketError::Malformed(e)),
    };
    let blocked = if request.queries.len() > 0 {
        assert(request@.queries[0].wf());
        blocklist::blocked_packet(&request.queries[0].name, blocklist)
    } else {
        false
    };
    react(request, blocked)
}

/// A reply bears the identifier, the operation and the question of its request, says whether
/// recursion was desired, and claims neither authority nor recursion nor truncation.
pub proof fn law_reply_mirrors_request(request: Header, question: QueryView, outcome: OutcomeView)
    ensures
        ({
            let reply = reply_message(request, question, outcome);
            &&& reply.header.response
            &&& reply.header.id == request.id
            &&& reply.header.op_code == request.op_code
            &&& reply.header.recursion_desired == request.recursion_desired
            &&& !reply.header.recursion_available
            &&& !reply.header.authoritative
            &&& !reply.header.truncation
            &&& reply.queries == seq![question]
            &&& reply.answers == outcome.answers
            &&& reply.authorities == outcome.authorities
        }),
{
}

/// A reply says that something was left out of it exactly if not all of its records were written.
pub proof fn law_replies_say_what_was_left_out(
    request: Header,
    question: QueryView,
    outcome: OutcomeView,
    octets: Seq<u8>,
)
    requires
        reply_message(request, question, outcome).heads(octets),
    ensures
        message::says_truncated(octets) <==> message::count_at(octets, 6) < outcome.answers.len()
            || message::count_at(octets, 8) < outcome.authorities.len(),
{
}

/// A reply is read back as what was written of it, if its records can stand in a message of its
/// operation; one that does not say that something was left out of it is read back as what it is.
/// And any reply that is read back at all has the identifier, operation and question of the
/// request and the code of the outcome, and claims neither authority nor recursion, whatever the
/// request said. (`heads` and `message::reads_back` hold of what [`build_response`] gives.)
pub proof fn law_replies_read_back(
    request: Header,
    question: QueryView,
    outcome: OutcomeView,
    octets: Seq<u8>,
)
    requires
        request.op_code < 16,
        reply_message(request, question, outcome).heads(octets),
        message::reads_back(reply_message(request, question, outcome), octets),
    ensures
        ({
            let reply = reply_message(request, question, outcome);
            &&& message::records_stand(outcome.answers, request.op_code) && message::records_stand(
                outcome.authorities,
                request.op_code,
            ) ==> {
                &&& message::decoded(octets) == Some(reply.written(octets))
                &&& !message::says_truncated(octets) ==> message::decoded(octets) == Some(reply)
            }
            &&& message::decoded(octets) matches Some(m) ==> {
                &&& m.header.id == request.id
                &&& m.header.response
                &&& m.header.op_code == request.op_code
                &&& m.header.recursion_desired == request.recursion_desired
                &&& m.header.response_code == code_of(outcome.status)
                &&& !m.header.authoritative
                &&& !m.header.recursion_available
                &&& m.header.truncation == message::says_truncated(octets)
                &&& m.queries == seq![question]
            }
        }),
{
    let reply = reply_message(request, question, outcome);
    let written = reply.written(octets);
    assert(written.additionals =~= reply.additionals);
    if !message::says_truncated(octets) {
        assert(written.answers =~= reply.answers);
        assert(written.authorities =~= reply.authorities);
    }
}

/// A reply without records, and the reply to a blocked question, are small messages: they can
/// always be written, and are read back as what they are.
pub proof fn law_plain_replies_are_small(
    request: Header,
    question: QueryView,
    status: ResolutionStatus,
)
    requires
        request.op_code < 16,
    ensures
        reply_message(request, question, OutcomeView::failed(status)).small(),
        reply_message(request, question, blocked_view(question)).small(),
{
}

/// A request that is forwarded is answered with the code that the server gave
/// if that is success or that the name does not exist, and with a server failure otherwise.
pub proof fn law_codes_pass_through(response_code: u16)
    ensures
        code_of(recursive::status_for(response_code)) == if response_code == message::NO_ERROR
            || response_code == message::NX_DOMAIN {
            response_code
        } else {
            message::SERV_FAIL
        },
{
}

/// A blocked question is answered for the name itself, with the address that leads nowhere if it
/// asks for an address and with nothing otherwise.
pub proof fn law_blocked_answers_lead_nowhere(question: QueryView)
    ensures
        blocked_view(question).status == ResolutionStatus::NoError,
        blocked_view(question).authorities.len() == 0,
        question.query_type == record::TYPE_A || question.query_type == record::TYPE_AAAA ==> {
            &&& blocked_view(question).answers.len() == 1
            &&& blocked_view(question).answers[0].answers(question.name, question.query_type)
            &&& blocked_view(question).answers[0].ttl == BLOCKED_TTL
        },
        question.query_type != record::TYPE_A && question.query_type != record::TYPE_AAAA
            ==> blocked_view(question).answers.len() == 0,
{
}

/// A reply has nothing in it but the question, the records of the outcome, all of them in their
/// order, and the code that its status stands for: success, that the name does not exist, or that
/// the server failed, which timeouts and malformed responses count as.
pub proof fn law_replies_hold_the_outcome(
    request: Header,
    question: QueryView,
    outcome: OutcomeView,
)
    ensures
        ({
            let reply = reply_message(request, question, outcome);
            &&& reply.header.response_code == match outcome.status {
                ResolutionStatus::NoError => 0u16,
                ResolutionStatus::NxDomain => 3,
                ResolutionStatus::ServFail => 2,
                ResolutionStatus::Timeout => 2,
                ResolutionStatus::Malformed => 2,
            }
            &&& code_of(outcome.status) == reply.header.response_code
            &&& !reply.header.authentic_data
            &&& !reply.header.checking_disabled
            &&& reply.queries.len() == 1
            &&& reply.queries[0] == question
            &&& reply.answers.len() == outcome.answers.len()
            &&& forall|i: int|
                0 <= i < outcome.answers.len() ==> #[trigger] reply.answers[i]
                    == outcome.answers[i]
            &&& reply.authorities.len() == outcome.authorities.len()
            &&& forall|i: int|
                0 <= i < outcome.authorities.len() ==> #[trigger] reply.authorities[i]
                    == outcome.authorities[i]
            &&& reply.additionals.len() == 0
            &&& reply.edns is None
        }),
{
}

/// A request for addresses of a blocked name is answered with a single record, of the name as it
/// was asked for, in the Internet class, for a minute: the address 0.0.0.0 or `::`. No other
/// question about a blocked name gets a record, and none fails.
pub proof fn law_blocked_questions_get_the_zero_address(question: QueryView)
    ensures
        ({
            let outcome = blocked_view(question);
            let data = if question.query_type == 1 {
                RDataView::A(0)
            } else {
                RDataView::AAAA(0)
            };
            &&& outcome.status == ResolutionStatus::NoError
            &&& outcome.authorities.len() == 0
            &&& outcome.answers.len() == if question.query_type == 1 || question.query_type == 28 {
                1int
            } else {
                0
            }
            &&& forall|i: int|
                0 <= i < outcome.answers.len() ==> #[trigger] outcome.answers[i] == (RecordView {
                    name: question.name,
                    class: 1,
                    ttl: 60,
                    data,
                })
        }),
{
}

/// A packet asks something if and only if it is a message with a question, and then the first
/// question counts, whatever others there are.
pub proof fn law_the_first_question_counts(packet: Seq<u8>)
    ensures
        asks(packet) is Some <==> message::decoded(packet) is Some && message::decoded(
            packet,
        )->0.queries.len() > 0,
        asks(packet) matches Some((request, question)) ==> {
            &&& message::decoded(packet) == Some(request)
            &&& question == request.queries[0]
        },
{
}

/// `0` stands for resolution from the root servers down, `1` for forwarding, and no other text for
/// either.
pub proof fn law_modes(argument: Seq<char>)
    ensures
        mode_of(argument) == Some(true) <==> argument.len() == 1 && argument[0] == '0',
        mode_of(argument) == Some(false) <==> argument.len() == 1 && argument[0] == '1',
{
    if argument.len() == 1 {
        assert(argument =~= seq![argument[0]]);
    }
}

} // verus!
