//! DNS messages and their wire form.
use crate::record;
use crate::record::{Query, QueryView, Record, RecordView, Section};
use hickory_proto::op::Message as WireMessage;
use hickory_proto::op::Query as WireQuery;
use hickory_proto::op::{Edns, MessageType, OpCode};
use hickory_proto::serialize::binary::DecodeError;
use hickory_proto::ProtoError;
use vstd::prelude::*;

verus! {

/// Response code: no error.
pub const NO_ERROR: u16 = 0;

/// Response code: the server failed.
pub const SERV_FAIL: u16 = 2;

/// Response code: the name does not exist.
pub const NX_DOMAIN: u16 = 3;

/// Operation code of a standard query.
pub const OP_QUERY: u8 = 0;

/// Operation code of an update.
pub const OP_UPDATE: u8 = 5;

/// The extended DNS options of `hickory_proto`, carried from message to message.
#[verifier::external_type_specification]
#[verifier::external_body]
pub struct ExEdns(Edns);

/// The error of `hickory_proto` for octets that are no message.
#[verifier::external_type_specification]
#[verifier::external_body]
pub struct ExDecodeError(DecodeError);

/// The error of `hickory_proto` for a message that has no wire form.
#[verifier::external_type_specification]
#[verifier::external_body]
pub struct ExProtoError(ProtoError);

/// `Clone` of `hickory_proto`'s extended DNS options, which copies them field by field: the copy
/// is claimed to be the same value.
pub assume_specification[ <Edns as Clone>::clone ](e: &Edns) -> (r: Edns)
    ensures
        r == *e,
;

/// Why a message could not be read or written.
#[derive(Debug)]
pub enum WireError {
    Decode(DecodeError),
    Encode(ProtoError),
}

/// The header of a message, the counts of its sections left out.
#[derive(Debug, Clone, Copy, PartialEq, Eq, Structural)]
pub struct Header {
    pub id: u16,
    /// A response, not a query.
    pub response: bool,
    pub op_code: u8,
    pub authoritative: bool,
    pub truncation: bool,
    pub recursion_desired: bool,
    pub recursion_available: bool,
    pub authentic_data: bool,
    pub checking_disabled: bool,
    pub response_code: u16,
}

/// A message.
#[derive(Debug)]
pub struct Message {
    pub header: Header,
    pub queries: Vec<Query>,
    pub answers: Vec<Record>,
    pub authorities: Vec<Record>,
    pub additionals: Vec<Record>,
    pub edns: Option<Edns>,
}

/// What a [`Message`] stands for.
pub struct MessageView {
    pub header: Header,
    pub queries: Seq<QueryView>,
    pub answers: Seq<RecordView>,
    pub authorities: Seq<RecordView>,
    pub additionals: Seq<RecordView>,
    pub edns: Option<Edns>,
}

impl View for Message {
    type V = MessageView;

    open spec fn view(&self) -> MessageView {
        MessageView {
            header: self.header,
            queries: record::queries_view(self.queries@),
            answers: record::records_view(self.answers@),
            authorities: record::records_view(self.authorities@),
            additionals: record::records_view(self.additionals@),
            edns: self.edns,
        }
    }
}

impl Clone for Message {
    fn clone(&self) -> (r: Self)
        ensures
            r@ == self@,
    {
        let mut queries: Vec<Query> = Vec::new();
        for i in 0..self.queries.len()
            invariant
                queries@.len() == i,
                forall|j: int| 0 <= j < i ==> (#[trigger] queries@[j])@ == self.queries@[j]@,
        {
            queries.push(self.queries[i].clone());
        }
        assert(record::queries_view(queries@) =~= record::queries_view(self.queries@));
        Message {
            header: self.header,
            queries,
            answers: record::clone_records(&self.answers),
            authorities: record::clone_records(&self.authorities),
            additionals: record::clone_records(&self.additionals),
            edns: match &self.edns {
                Some(edns) => Some(edns.clone()),
                None => None,
            },
        }
    }
}

impl MessageView {
    /// Every name in the message is one that the DNS allows.
    pub open spec fn wf(self) -> bool {
        &&& forall|i: int| 0 <= i < self.queries.len() ==> (#[trigger] self.queries[i]).wf()
        &&& record::records_wf(self.answers)
        &&& record::records_wf(self.authorities)
        &&& record::records_wf(self.additionals)
    }

    /// The message holds at most a question and one address that answers it, and its codes fit
    /// in the header.
    pub open spec fn small(self) -> bool {
        &&& self.queries.len() <= 1
        &&& self.answers.len() == 0 || (self.answers.len() == 1
            && self.answers[0].data.server() is Some)
        &&& self.authorities.len() == 0
        &&& self.additionals.len() == 0
        &&& self.edns is None
        &&& self.header.op_code < 16
        &&& self.header.response_code < 16
    }

    /// The codes fit in the header, and there are no extended options.
    pub open spec fn unextended(self) -> bool {
        &&& self.edns is None
        &&& self.header.op_code < 16
        &&& self.header.response_code < 16
    }

    /// The message is unextended, and every record can stand where it does.
    pub open spec fn readable(self) -> bool {
        &&& self.unextended()
        &&& records_stand(self.answers, self.header.op_code)
        &&& records_stand(self.authorities, self.header.op_code)
        &&& records_stand(self.additionals, self.header.op_code)
    }

    /// The octets begin with the header of this message: identifier, kind, operation, flags,
    /// response code, number of questions, and of each other section how many records of it were
    /// written. They say that something was left out if the message does or if there are records
    /// that were not written.
    pub open spec fn heads(self, octets: Seq<u8>) -> bool {
        &&& octets.len() >= 12
        &&& octets[0] * 256 + octets[1] == self.header.id
        &&& octets[2] >= 128 <==> self.header.response
        &&& octets[2] / 8 % 16 == self.header.op_code
        &&& octets[2] / 4 % 2 == 1 <==> self.header.authoritative
        &&& octets[2] % 2 == 1 <==> self.header.recursion_desired
        &&& octets[3] >= 128 <==> self.header.recursion_available
        &&& octets[3] / 64 % 2 == 0
        &&& octets[3] / 32 % 2 == 1 <==> self.header.authentic_data
        &&& octets[3] / 16 % 2 == 1 <==> self.header.checking_disabled
        &&& octets[3] % 16 == self.header.response_code % 16
        &&& count_at(octets, 4) == self.queries.len()
        &&& count_at(octets, 6) <= self.answers.len()
        &&& count_at(octets, 8) <= self.authorities.len()
        &&& count_at(octets, 10) <= self.additional_count()
        &&& says_truncated(octets) <==> {
            ||| self.header.truncation
            ||| count_at(octets, 6) < self.answers.len()
            ||| count_at(octets, 8) < self.authorities.len()
            ||| count_at(octets, 10) < self.additional_count()
        }
    }

    /// What octets that begin with the header of this message hold of it: of each section the
    /// records that were written, which are the first ones.
    pub open spec fn written(self, octets: Seq<u8>) -> MessageView {
        MessageView {
            header: Header { truncation: says_truncated(octets), ..self.header },
            answers: self.answers.take(count_at(octets, 6)),
            authorities: self.authorities.take(count_at(octets, 8)),
            additionals: self.additionals.take(count_at(octets, 10)),
            ..self
        }
    }

    /// How many additional records there are to write, the extended options among them.
    pub open spec fn additional_count(self) -> int {
        self.additionals.len() + if self.edns is Some {
            1int
        } else {
            0
        }
    }
}

/// Every record of a list can stand in a message of an operation: it has data, unless the message
/// is an update, and is neither a signature of the message nor one of its extended options.
pub open spec fn records_stand(records: Seq<RecordView>, op_code: u8) -> bool {
    forall|i: int| 0 <= i < records.len() ==> record_stands(#[trigger] records[i], op_code)
}

/// A record can stand in a message of an operation.
pub open spec fn record_stands(record: RecordView, op_code: u8) -> bool {
    &&& record.data is Empty ==> op_code == OP_UPDATE
    &&& record.data.record_type() != record::TYPE_SIG
    &&& record.data.record_type() != record::TYPE_OPT
    &&& record.data.record_type() != record::TYPE_TSIG
}

/// A number of two octets.
pub open spec fn count_at(octets: Seq<u8>, i: int) -> int {
    octets[i] * 256 + octets[i + 1]
}

/// The octets of a message say that something was left out of it.
pub open spec fn says_truncated(octets: Seq<u8>) -> bool {
    octets.len() > 2 && octets[2] / 2 % 2 == 1
}

/// What octets tell of a message: they read back as what was written of it, as long as that is
/// readable; and where they read back at all, the header, but for whether something was left out,
/// and the questions are those of the message, as long as it is unextended and has nothing
/// additional.
pub open spec fn reads_back(message: MessageView, octets: Seq<u8>) -> bool {
    &&& message.written(octets).readable() ==> decoded(octets) == Some(message.written(octets))
    &&& message.unextended() && message.additionals.len() == 0 ==> (decoded(octets) matches Some(m)
        ==> {
        &&& m.header == Header { truncation: says_truncated(octets), ..message.header }
        &&& m.queries == message.queries
    })
}

/// The message that `Message::from_vec` of `hickory_proto` reads from octets, if they are one.
pub uninterp spec fn decoded(octets: Seq<u8>) -> Option<MessageView>;

/// The octets that `Message::to_vec` of `hickory_proto` writes for a message, if it can.
pub uninterp spec fn encoded(message: MessageView) -> Option<Seq<u8>>;

/// Reads a message by `hickory_proto`'s `Message::from_vec` and hands out its parts. It is
/// claimed that the result depends on the octets alone, that the operation code is one of four
/// bits, and that answers and authorities hold only what can stand in a message of that operation.
#[verifier::external_body]
fn read_message(octets: &[u8]) -> (r: Result<
    (Header, Vec<WireQuery>, Section, Section, Section, Option<Edns>),
    DecodeError,
>)
    ensures
        match r {
            Ok((header, queries, answers, authorities, additionals, edns)) => {
                &&& decoded(octets@) == Some(
                    MessageView {
                        header,
                        queries: record::wire_queries(queries@),
                        answers: record::section_records(answers),
                        authorities: record::section_records(authorities),
                        additionals: record::section_records(additionals),
                        edns,
                    },
                )
                &&& header.op_code < 16
                &&& records_stand(record::section_records(answers), header.op_code)
                &&& records_stand(record::section_records(authorities), header.op_code)
            },
            Err(_) => decoded(octets@) is None,
        },
{
    let m = WireMessage::from_vec(octets)?;
    let (h, response) = (m.metadata, m.metadata.message_type == MessageType::Response);
    let header = Header {
        id: h.id, response, op_code: h.op_code.into(), authoritative: h.authoritative,
        truncation: h.truncation, recursion_desired: h.recursion_desired,
        recursion_available: h.recursion_available, authentic_data: h.authentic_data,
        checking_disabled: h.checking_disabled, response_code: h.response_code.into(),
    };
    let section = |records| Section { records };
    let (answers, authorities) = (section(m.answers), section(m.authorities));
    Ok((header, m.queries, answers, authorities, section(m.additionals), m.edns))
}

/// Writes a message by `hickory_proto`'s `Message::to_vec`, after filling it with the parts. It
/// is claimed that the result depends on the parts alone, that the octets begin with the header,
/// in which the records that were written are counted, that they read back as far as
/// [`reads_back`] says, and that a message with at most a question and one address in it, their
/// names allowed by the DNS, has a wire form, which reads back as that message. Records of kinds
/// that the resolver does not look into read back because their data was read from a message:
/// `hickory_proto` writes every kind of data in the form that it reads. Which larger messages have
/// a wire form is not claimed.
#[verifier::external_body]
fn write_message(
    header: Header,
    queries: Vec<WireQuery>,
    answers: Section,
    authorities: Section,
    additionals: Section,
    edns: Option<Edns>,
) -> (r: Result<Vec<u8>, ProtoError>)
    ensures
        ({
            let message = MessageView {
                header,
                queries: record::wire_queries(queries@),
                answers: record::section_records(answers),
                authorities: record::section_records(authorities),
                additionals: record::section_records(additionals),
                edns,
            };
            match r {
                Ok(octets) => {
                    &&& encoded(message) == Some(octets@)
                    &&& header.op_code < 16 ==> message.heads(octets@)
                    &&& message.wf() && message.small() ==> decoded(octets@) == Some(message)
                    &&& message.wf() ==> reads_back(message, octets@)
                },
                Err(_) => encoded(message) is None && !(message.wf() && message.small()),
            }
        }),
{
    let kind = if header.response { MessageType::Response } else { MessageType::Query };
    let mut m = WireMessage::new(header.id, kind, OpCode::from_u8(header.op_code));
    let h = &mut m.metadata;
    (h.authoritative, h.truncation) = (header.authoritative, header.truncation);
    h.recursion_desired = header.recursion_desired;
    h.recursion_available = header.recursion_available;
    (h.authentic_data, h.checking_disabled) = (header.authentic_data, header.checking_disabled);
    h.response_code = header.response_code.into();
    (m.queries, m.answers, m.edns) = (queries, answers.records, edns);
    (m.authorities, m.additionals) = (authorities.records, additionals.records);
    m.to_vec()
}

/// Reads a message from octets.
pub fn decode(octets: &[u8]) -> (r: Result<Message, WireError>)
    ensures
        match r {
            Ok(m) => {
                &&& decoded(octets@) == Some(m@)
                &&& m@.wf()
                &&& m.header.op_code < 16
                &&& records_stand(m@.answers, m.header.op_code)
                &&& records_stand(m@.authorities, m.header.op_code)
            },
            Err(e) => decoded(octets@) is None && e is Decode,
        },
{
    match read_message(octets) {
        Ok((header, queries, answers, authorities, additionals, edns)) => {
            let message = Message {
                header,
                queries: record::read_queries(&queries),
                answers: record::read_section(answers),
                authorities: record::read_section(authorities),
                additionals: record::read_section(additionals),
                edns,
            };
            assert forall|i: int| 0 <= i < message@.queries.len() implies (
            #[trigger] message@.queries[i]).wf() by {
                assert(message.queries@[i]@.wf());
            }
            Ok(message)
        },
        Err(e) => Err(WireError::Decode(e)),
    }
}

/// Writes a message to octets.
pub fn encode(message: Message) -> (r: Result<Vec<u8>, WireError>)
    requires
        message@.wf(),
    ensures
        match r {
            Ok(octets) => {
                &&& encoded(message@) == Some(octets@)
                &&& message.header.op_code < 16 ==> message@.heads(octets@)
                &&& message@.small() ==> decoded(octets@) == Some(message@)
                &&& reads_back(message@, octets@)
            },
            Err(e) => encoded(message@) is None && !message@.small() && e is Encode,
        },
{
    proof {
        assert forall|i: int| 0 <= i < message.queries@.len() implies (
        #[trigger] message.queries@[i])@.wf() by {
            assert(message@.queries[i].wf());
        }
    }
    let answers = record::write_section(message.answers);
    let authorities = record::write_section(message.authorities);
    let additionals = record::write_section(message.additionals);
    match write_message(
        message.header,
        record::write_queries(&message.queries),
        answers,
        authorities,
        additionals,
        message.edns,
    ) {
        Ok(octets) => Ok(octets),
        Err(e) => Err(WireError::Encode(e)),
    }
}

/// The codes are those that the DNS assigns.
pub proof fn law_codes()
    ensures
        NO_ERROR == 0,
        SERV_FAIL == 2,
        NX_DOMAIN == 3,
        OP_QUERY == 0,
        OP_UPDATE == 5,
{
}

/// What messages stand for leaves nothing of them out, and the names of a message are allowed
/// exactly if those of its questions and records are.
pub proof fn law_views_of_messages_leave_nothing_out(message: Message, view: MessageView)
    ensures
        message@.header == message.header,
        message@.queries == record::queries_view(message.queries@),
        message@.answers == record::records_view(message.answers@),
        message@.authorities == record::records_view(message.authorities@),
        message@.additionals == record::records_view(message.additionals@),
        message@.edns == message.edns,
        view.wf() <==> {
            &&& forall|i: int| 0 <= i < view.queries.len() ==> (#[trigger] view.queries[i]).wf()
            &&& forall|i: int| 0 <= i < view.answers.len() ==> (#[trigger] view.answers[i]).wf()
            &&& forall|i: int|
                0 <= i < view.authorities.len() ==> (#[trigger] view.authorities[i]).wf()
            &&& forall|i: int|
                0 <= i < view.additionals.len() ==> (#[trigger] view.additionals[i]).wf()
        },
{
}

} // verus!
