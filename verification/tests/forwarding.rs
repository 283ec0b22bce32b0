use dns::message::{decode, Message};
use dns::record::{RData, SocketAddr};
use dns::resolver::recursive::{
    conclude_forward, pass_on, public_servers, Forward, RecursiveForwardResolver,
};
use dns::resolver::transport::{message_id, Exchanged, PendingRequests, Start, Waited};
use dns::resolver::types::ResolutionStatus;
use hickory_proto::op::Message as WireMessage;
use hickory_proto::op::{MessageType, OpCode, Query, ResponseCode};
use hickory_proto::rr::{Name, RData as WireData, Record, RecordType};
use hickory_proto::rr::rdata::A;

fn make_query(id: u16, host: &str) -> Vec<u8> {
    let mut m = WireMessage::new(id, MessageType::Query, OpCode::Query);
    m.add_query(Query::query(Name::from_ascii(host).unwrap(), RecordType::A));
    m.to_vec().unwrap()
}

fn make_response_from_query(query: &[u8]) -> Vec<u8> {
    let request = WireMessage::from_vec(query).unwrap();
    let mut m = WireMessage::new(request.metadata.id, MessageType::Response, OpCode::Query);
    m.metadata.response_code = ResponseCode::NoError;
    m.to_vec().unwrap()
}

fn response(code: ResponseCode, answers: Vec<Record>) -> Vec<u8> {
    let mut m = WireMessage::new(0, MessageType::Response, OpCode::Query);
    m.metadata.response_code = code;
    m.answers = answers;
    m.to_vec().unwrap()
}

fn v4(a: u8, b: u8, c: u8, d: u8) -> SocketAddr {
    SocketAddr::V4 { ip: u32::from_be_bytes([a, b, c, d]), port: 53 }
}

fn query_message(host: &str) -> Message {
    decode(&make_query(7, host)).unwrap()
}

#[test]
fn recursive_servfail_propagation() {
    let mut resolver = RecursiveForwardResolver::new(vec![v4(8, 8, 8, 8)]);
    match resolver.forward(query_message("recursive.example.com.")) {
        Forward::Exchange { request, server } => {
            assert_eq!(server, v4(8, 8, 8, 8));
            assert_eq!(request, make_query(7, "recursive.example.com."));
        }
        Forward::Done(_) => panic!("the request is to be sent"),
    }
    let out = conclude_forward(Exchanged::Reply(response(ResponseCode::ServFail, vec![])));
    assert_eq!(out.status, ResolutionStatus::ServFail);
}

#[test]
fn replies_are_passed_on() {
    let answer = Record::from_rdata(
        Name::from_ascii("example.com.").unwrap(),
        77,
        WireData::A(A::new(1, 2, 3, 4)),
    );
    let out = conclude_forward(Exchanged::Reply(response(ResponseCode::NoError, vec![answer.clone()])));
    assert_eq!(out.status, ResolutionStatus::NoError);
    assert_eq!(out.answers.len(), 1);
    assert_eq!(out.answers[0].ttl, 77);
    assert!(matches!(out.answers[0].data, RData::A(0x0102_0304)));
    let out = conclude_forward(Exchanged::Reply(response(ResponseCode::NXDomain, vec![answer.clone()])));
    assert_eq!(out.status, ResolutionStatus::NxDomain);
    assert_eq!(out.answers.len(), 1);
    let out = conclude_forward(Exchanged::Reply(response(ResponseCode::Refused, vec![answer])));
    assert_eq!(out.status, ResolutionStatus::ServFail);
    assert_eq!(out.answers.len(), 1);
    let message = decode(&response(ResponseCode::FormErr, vec![])).unwrap();
    assert_eq!(pass_on(message).status, ResolutionStatus::ServFail);
}

#[test]
fn failed_exchanges_have_a_status() {
    let out = conclude_forward(Exchanged::TimedOut);
    assert_eq!(out.status, ResolutionStatus::Timeout);
    assert!(out.answers.is_empty() && out.authorities.is_empty());
    let out = conclude_forward(Exchanged::Failed);
    assert_eq!(out.status, ResolutionStatus::ServFail);
    let out = conclude_forward(Exchanged::Reply(vec![0; 5]));
    assert_eq!(out.status, ResolutionStatus::Malformed);
}

#[test]
fn servers_take_turns() {
    let servers = vec![v4(8, 8, 8, 8), v4(8, 8, 4, 4), v4(1, 1, 1, 1)];
    let mut resolver = RecursiveForwardResolver::new(servers.clone());
    for turn in 0..7 {
        match resolver.forward(query_message("example.com.")) {
            Forward::Exchange { server, .. } => assert_eq!(server, servers[turn % 3]),
            Forward::Done(_) => panic!("the request is to be sent"),
        }
    }
}

#[test]
fn unwritable_requests_take_nobodys_turn() {
    let servers = vec![v4(8, 8, 8, 8), v4(8, 8, 4, 4)];
    let mut resolver = RecursiveForwardResolver::new(servers.clone());
    let mut request = query_message("example.com.");
    request.queries = vec![request.queries[0].clone(); 0x1_0000];
    match resolver.forward(request) {
        Forward::Done(outcome) => assert_eq!(outcome.status, ResolutionStatus::Malformed),
        Forward::Exchange { .. } => panic!("the request cannot be written"),
    }
    match resolver.forward(query_message("example.com.")) {
        Forward::Exchange { server, .. } => assert_eq!(server, servers[0]),
        Forward::Done(_) => panic!("the request is to be sent"),
    }
}

#[test]
fn exchange_demuxes_same_id_across_servers() {
    let (server_a, server_b) = (
        SocketAddr::V4 { ip: 0x7F00_0001, port: 40001 },
        SocketAddr::V4 { ip: 0x7F00_0001, port: 40002 },
    );
    let req_a = make_query(42, "a.example.com.");
    let req_b = make_query(42, "b.example.com.");
    let mut pending: PendingRequests<&str> = PendingRequests::new(8);
    assert!(pending.register(message_id(&req_a).unwrap(), server_a, "a").is_ok());
    assert!(pending.register(message_id(&req_b).unwrap(), server_b, "b").is_ok());
    assert_eq!(pending.route(&make_response_from_query(&req_b), server_b), Some("b"));
    assert_eq!(pending.route(&make_response_from_query(&req_a), server_a), Some("a"));
}

#[test]
fn exchange_times_out_without_response() {
    let server = SocketAddr::V4 { ip: 0x7F00_0001, port: 40003 };
    let req = make_query(7, "example.com.");
    let id = message_id(&req).unwrap();
    let mut pending: PendingRequests<&str> = PendingRequests::new(8);
    assert!(pending.register(id, server, "waiter").is_ok());
    assert!(matches!(pending.finish(id, server, Waited::TimedOut), Exchanged::TimedOut));
    assert_eq!(pending.take(id, server), None);
}

#[test]
fn exchanges_end_in_four_ways() {
    let server = v4(1, 1, 1, 1);
    let mut pending: PendingRequests<u32> = PendingRequests::new(8);
    for waited in [Waited::NotSent, Waited::Closed] {
        assert!(pending.register(3, server, 1).is_ok());
        assert!(matches!(pending.finish(3, server, waited), Exchanged::Failed));
        assert_eq!(pending.take(3, server), None);
    }
    assert!(pending.register(3, server, 1).is_ok());
    let reply = make_response_from_query(&make_query(3, "x."));
    assert_eq!(pending.route(&reply, server), Some(1));
    let ended = pending.finish(3, server, Waited::Received(reply.clone()));
    assert_eq!(ended.reply(), Some(reply));
    assert_eq!(Exchanged::TimedOut.reply(), None);
    assert_eq!(Exchanged::Failed.reply(), None);
}

#[test]
fn public_servers_in_their_order() {
    let expected =
        [v4(8, 8, 8, 8), v4(8, 8, 4, 4), v4(1, 1, 1, 1), v4(1, 0, 0, 1), v4(9, 9, 9, 9)];
    assert_eq!(public_servers(), expected);
}

#[test]
fn requests_in_flight_are_not_doubled() {
    let server = v4(1, 1, 1, 1);
    let mut pending: PendingRequests<u32> = PendingRequests::new(8);
    assert_eq!(pending.register(5, server, 10), Ok(()));
    assert_eq!(pending.register(5, server, 11), Err(11));
    assert_eq!(pending.register(6, server, 12), Ok(()));
    assert_eq!(pending.take(5, server), Some(10));
    assert_eq!(pending.take(5, server), None);
    assert_eq!(pending.register(5, server, 13), Ok(()));
    assert_eq!(pending.take(6, server), Some(12));
    assert_eq!(pending.take(5, server), Some(13));
}

#[test]
fn requests_in_flight_are_limited() {
    let server = v4(1, 1, 1, 1);
    let mut pending: PendingRequests<u16> = PendingRequests::new(3);
    for id in 0..3 {
        assert!(pending.has_room());
        assert_eq!(pending.register(id, server, id), Ok(()));
    }
    assert!(!pending.has_room());
    assert_eq!(pending.register(3, server, 3), Err(3));
    assert_eq!(pending.take(1, server), Some(1));
    assert_eq!(pending.register(3, server, 3), Ok(()));
    assert_eq!(pending.take(3, server), Some(3));
    let mut none: PendingRequests<u16> = PendingRequests::new(0);
    assert_eq!(none.register(0, server, 0), Err(0));
}

#[test]
fn requests_wait_for_room() {
    let server = v4(1, 1, 1, 1);
    let (first, second) = (make_query(1, "x."), make_query(2, "y."));
    let mut pending: PendingRequests<u32> = PendingRequests::new(1);
    assert!(matches!(pending.start(&[0, 1], server, 9), Start::Refuse));
    assert!(matches!(pending.start(&first, server, 10), Start::Send(1)));
    assert!(matches!(pending.start(&second, server, 20), Start::Wait(20)));
    assert!(matches!(pending.start(&first, server, 30), Start::Wait(30)));
    assert!(matches!(pending.start(&[0, 1], server, 9), Start::Refuse));
    assert_eq!(pending.route(&make_response_from_query(&second), server), None);
    assert!(matches!(pending.finish(1, server, Waited::TimedOut), Exchanged::TimedOut));
    assert!(matches!(pending.start(&second, server, 20), Start::Send(2)));
    assert_eq!(pending.route(&make_response_from_query(&second), server), Some(20));
    let mut two: PendingRequests<u32> = PendingRequests::new(2);
    assert!(matches!(two.start(&first, server, 10), Start::Send(1)));
    assert!(matches!(two.start(&first, server, 11), Start::Refuse));
    assert_eq!(two.take(1, server), Some(10));
}

#[test]
fn late_and_unmatched_responses_reach_nobody() {
    let server = v4(1, 1, 1, 1);
    let mut pending: PendingRequests<u32> = PendingRequests::new(8);
    assert!(pending.register(5, server, 10).is_ok());
    assert_eq!(pending.route(&[1, 2, 3], server), None);
    assert_eq!(pending.route(&make_response_from_query(&make_query(6, "x.")), server), None);
    let reply = make_response_from_query(&make_query(5, "x."));
    assert_eq!(pending.route(&reply, v4(2, 2, 2, 2)), None);
    assert_eq!(pending.route(&reply, server), Some(10));
    assert_eq!(pending.route(&reply, server), None);
}

#[test]
fn identifiers_are_read() {
    assert_eq!(message_id(&make_query(0xABCD, "x.")).unwrap(), 0xABCD);
    assert!(message_id(&[0; 4]).is_err());
}
