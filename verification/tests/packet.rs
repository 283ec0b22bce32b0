use dns::message::{decode, encode, WireError, NO_ERROR, NX_DOMAIN, SERV_FAIL};
use dns::name::Name;
use dns::packet::{
    blocked_outcome, build_response, handle_request, map_status, parse_mode, react,
    servfail_response_for_packet, PacketError, Reaction, ResolverRuntimeConfig,
};
use dns::record::{Query, RData, Record, CLASS_IN, TYPE_A, TYPE_AAAA};
use dns::resolver::types::{ResolutionOutcome, ResolutionStatus};
use hickory_proto::op::Message as WireMessage;
use hickory_proto::op::Query as WireQuery;
use hickory_proto::op::{Edns, MessageType, OpCode, ResponseCode};
use hickory_proto::rr::Name as WireName;
use hickory_proto::rr::RData as WireData;
use hickory_proto::rr::rdata::NULL;
use hickory_proto::rr::{Record as WireRecord, RecordType};
use std::time::Duration;

fn wire_name(s: &str) -> WireName {
    WireName::from_ascii(s).unwrap()
}

fn name(s: &str) -> Name {
    Name { labels: wire_name(s).iter().map(Vec::from).collect() }
}

fn request(id: u16, host: &str, kind: RecordType) -> Vec<u8> {
    let mut m = WireMessage::new(id, MessageType::Query, OpCode::Query);
    m.metadata.recursion_desired = true;
    m.add_query(WireQuery::query(wire_name(host), kind));
    m.to_vec().unwrap()
}

fn list(entries: &[&str]) -> Vec<String> {
    entries.iter().map(|s| s.to_string()).collect()
}

#[test]
fn packet_assembly_maps_nxdomain() {
    let mut m = WireMessage::new(10, MessageType::Query, OpCode::Query);
    m.add_query(WireQuery::query(wire_name("example.com."), RecordType::A));
    let request = decode(&m.to_vec().unwrap()).unwrap();
    let question = Query { name: name("example.com."), query_type: TYPE_A, query_class: CLASS_IN };

    let reply = build_response(
        &request,
        &question,
        ResolutionOutcome {
            status: ResolutionStatus::NxDomain,
            answers: Vec::new(),
            authorities: Vec::new(),
        },
    )
    .unwrap();

    let parsed = WireMessage::from_vec(&reply).unwrap();
    assert_eq!(parsed.metadata.response_code, ResponseCode::NXDomain);
    assert_eq!(parsed.queries.len(), 1);
}

#[test]
fn replies_mirror_their_request() {
    let mut m = WireMessage::new(0xBEEF, MessageType::Query, OpCode::Notify);
    m.metadata.recursion_desired = true;
    m.metadata.checking_disabled = true;
    m.metadata.authoritative = true;
    m.add_query(WireQuery::query(wire_name("Www.Example.com."), RecordType::TXT));
    let request = decode(&m.to_vec().unwrap()).unwrap();
    let answer = Record { name: name("x.example."), class: CLASS_IN, ttl: 9, data: RData::A(5) };
    let authority = Record {
        name: name("example."),
        class: CLASS_IN,
        ttl: 8,
        data: RData::NS(name("ns.example.")),
    };
    let outcome = ResolutionOutcome {
        status: ResolutionStatus::NoError,
        answers: vec![answer],
        authorities: vec![authority],
    };
    let octets = build_response(&request, &request.queries[0], outcome).unwrap();
    assert_eq!(octets[..6], [0xBE, 0xEF, 0b1010_0001, 0, 0, 1]);
    let parsed = WireMessage::from_vec(&octets).unwrap();
    assert_eq!(parsed.metadata.id, 0xBEEF);
    assert_eq!(parsed.metadata.message_type, MessageType::Response);
    assert_eq!(parsed.metadata.op_code, OpCode::Notify);
    assert!(parsed.metadata.recursion_desired);
    assert!(!parsed.metadata.recursion_available);
    assert!(!parsed.metadata.authoritative);
    assert!(!parsed.metadata.checking_disabled);
    assert_eq!(parsed.queries[0].name().to_ascii(), "Www.Example.com.");
    assert_eq!(parsed.answers.len(), 1);
    assert_eq!(parsed.answers[0].ttl, 9);
    assert_eq!(parsed.answers[0].name.to_ascii(), "x.example.");
    assert_eq!(parsed.authorities.len(), 1);
    assert!(matches!(&parsed.authorities[0].data, WireData::NS(n) if n.0.to_ascii() == "ns.example."));
    assert!(parsed.additionals.is_empty());
}

#[test]
fn replies_with_records_read_back() {
    let mut m = WireMessage::new(4, MessageType::Query, OpCode::Query);
    m.metadata.authoritative = true;
    m.metadata.recursion_available = true;
    m.add_query(WireQuery::query(wire_name("Www.example.com."), RecordType::A));
    let request = decode(&m.to_vec().unwrap()).unwrap();
    let record = |owner: &str, data| Record { name: name(owner), class: 3, ttl: 7, data };
    let soa = hickory_proto::rr::rdata::SOA::new(
        wire_name("NS.example.com."),
        wire_name("a.b.example.com."),
        1,
        -2,
        3,
        4,
        5,
    );
    let mut wire = WireMessage::new(0, MessageType::Response, OpCode::Query);
    wire.answers =
        vec![WireRecord::from_rdata(wire_name("example.com."), 9, WireData::SOA(soa.clone()))];
    let carried = decode(&wire.to_vec().unwrap()).unwrap().answers;
    let outcome = ResolutionOutcome {
        status: ResolutionStatus::NxDomain,
        answers: vec![
            record("www.EXAMPLE.com.", RData::CNAME(name("x.www.example.com."))),
            record("x.www.example.com.", RData::AAAA(1)),
            record(".", RData::NS(name("ns.example.com."))),
        ],
        authorities: carried,
    };
    let octets = build_response(&request, &request.queries[0], outcome).unwrap();
    let reply = decode(&octets).unwrap();
    assert_eq!(reply.header.id, 4);
    assert!(reply.header.response);
    assert_eq!(reply.header.response_code, NX_DOMAIN);
    assert!(!reply.header.authoritative && !reply.header.recursion_available);
    assert!(!reply.header.truncation);
    assert_eq!(reply.queries[0].name.labels, name("Www.example.com.").labels);
    assert_eq!(reply.answers.len(), 3);
    assert_eq!(reply.answers[0].name.labels, name("www.EXAMPLE.com.").labels);
    assert_eq!((reply.answers[0].class, reply.answers[0].ttl), (3, 7));
    assert!(matches!(&reply.answers[0].data,
        RData::CNAME(n) if n.labels == name("x.www.example.com.").labels));
    assert!(matches!(reply.answers[1].data, RData::AAAA(1)));
    assert!(matches!(&reply.answers[2].data,
        RData::NS(n) if n.labels == name("ns.example.com.").labels));
    let parsed = WireMessage::from_vec(&octets).unwrap();
    assert_eq!(parsed.authorities[0].data, WireData::SOA(soa));
}

fn raw(kind: u16, data: &[u8]) -> WireRecord {
    let (code, rdata) = (RecordType::from(kind), NULL::with(data.to_vec()));
    WireRecord::from_rdata(wire_name("example.com."), 9, WireData::Unknown { code, rdata })
}

#[test]
fn replies_with_records_of_every_kind_read_back() {
    let kinds: [(u16, &[u8]); 21] = [
        (10, &[1, 2, 3]),
        (12, b"\x01p\x00"),
        (13, b"\x03cpu\x02os"),
        (15, b"\x00\x0a\x02mx\x00"),
        (16, b"\x02hi\x00"),
        (33, b"\x00\x01\x00\x02\x00\x50\x01s\x00"),
        (35, b"\x00\x01\x00\x02\x01s\x03sip\x00\x01r\x00"),
        (37, &[0, 1, 0, 2, 5, 9, 9]),
        (39, b"\x01d\x00"),
        (44, &[1, 1, 7, 7]),
        (46, &[0; 20]),
        (48, &[1, 0, 3, 8, 4]),
        (52, &[3, 1, 1, 0xAA]),
        (53, &[3, 0, 2, 0xBB]),
        (61, &[4, 5]),
        (62, &[0, 0, 0, 9, 0, 3, 0, 4, 0x60, 0, 0, 8]),
        (64, b"\x00\x01\x01a\x00\x00\x03\x00\x02\x01\xBB"),
        (65, b"\x00\x01\x00\x00\x01\x00\x03\x02h2"),
        (257, b"\x00\x05issueca.example"),
        (999, &[7]),
        (65305, b"\x01a\x00"),
    ];
    for (kind, data) in kinds {
        let mut wire = WireMessage::new(0, MessageType::Response, OpCode::Query);
        wire.answers = vec![raw(kind, data), raw(kind, data)];
        wire.authorities = vec![raw(kind, data)];
        let octets = wire.to_vec().unwrap();
        let (read, carried) = (WireMessage::from_vec(&octets).unwrap(), decode(&octets).unwrap());
        assert!(matches!(&carried.answers[0].data, RData::Other(d) if d.record_type() == kind));
        let asked = decode(&request(8, "q.example.com.", RecordType::from(kind))).unwrap();
        let outcome = ResolutionOutcome::noerror(carried.answers, carried.authorities);
        let reply = build_response(&asked, &asked.queries[0], outcome).unwrap();
        let again = WireMessage::from_vec(&reply).unwrap();
        assert_eq!(again.answers, read.answers);
        assert_eq!(again.authorities, read.authorities);
        assert_eq!(again.queries[0].query_type(), RecordType::from(kind));
    }
}

#[test]
fn records_without_data_belong_to_updates() {
    let mut wire = WireMessage::new(0, MessageType::Response, OpCode::Update);
    let empty = WireData::Update0(RecordType::MX);
    wire.answers = vec![WireRecord::from_rdata(wire_name("example.com."), 9, empty)];
    let octets = wire.to_vec().unwrap();
    let carried = decode(&octets).unwrap();
    assert!(matches!(carried.answers[0].data, RData::Empty(15)));
    assert_eq!(carried.answers[0].data.record_type(), 15);
    for (op_code, reads) in [(OpCode::Update, true), (OpCode::Query, false)] {
        let mut m = WireMessage::new(3, MessageType::Query, op_code);
        m.add_query(WireQuery::query(wire_name("example.com."), RecordType::MX));
        let asked = decode(&m.to_vec().unwrap()).unwrap();
        let outcome = ResolutionOutcome::noerror(carried.answers.clone(), Vec::new());
        let reply = build_response(&asked, &asked.queries[0], outcome).unwrap();
        assert_eq!(&reply[6..8], &[0, 1]);
        match decode(&reply) {
            Ok(m) => assert!(reads && matches!(m.answers[0].data, RData::Empty(15))),
            Err(e) => assert!(!reads && matches!(e, WireError::Decode(_))),
        }
    }
}

#[test]
fn signatures_stand_among_additional_records_only() {
    for kind in [24, 41, 250] {
        let mut wire = WireMessage::new(0, MessageType::Response, OpCode::Query);
        wire.answers = vec![raw(kind, &[0; 4])];
        assert!(decode(&wire.to_vec().unwrap()).is_err());
    }
}

#[test]
fn headers_hold_every_flag_and_count() {
    let mut m = decode(&request(0x0102, "example.com.", RecordType::A)).unwrap();
    m.header.authentic_data = true;
    assert_eq!(encode(m.clone()).unwrap()[2..12], [1, 0x20, 0, 1, 0, 0, 0, 0, 0, 0]);
    m.header.checking_disabled = true;
    m.header.truncation = true;
    m.header.response_code = NX_DOMAIN;
    m.edns = Some(Edns::new());
    assert_eq!(encode(m.clone()).unwrap()[2..12], [3, 0x33, 0, 1, 0, 0, 0, 0, 0, 1]);
}

#[test]
fn replies_that_are_too_long_say_so() {
    let request = decode(&request(4, "example.com.", RecordType::A)).unwrap();
    let record = Record { name: name("example.com."), class: CLASS_IN, ttl: 7, data: RData::A(1) };
    let outcome = ResolutionOutcome {
        status: ResolutionStatus::NoError,
        answers: vec![record; 5000],
        authorities: Vec::new(),
    };
    let octets = build_response(&request, &request.queries[0], outcome).unwrap();
    let reply = decode(&octets).unwrap();
    assert!(reply.header.truncation);
    assert!(reply.answers.len() < 5000);
    assert_eq!(reply.answers.len(), octets[6] as usize * 256 + octets[7] as usize);
    assert!(reply.answers.iter().all(|r| matches!(r.data, RData::A(1)) && r.ttl == 7));
    assert_eq!(reply.header.id, 4);
    assert_eq!(reply.queries.len(), 1);
}

#[test]
fn replies_hold_the_first_records_that_fit() {
    for kind in [16u16, 33] {
        let mut data = vec![0, 0, 0, 0, 0, 0, 60];
        data.extend([b'a'; 60]);
        data.push(0);
        if kind == 16 {
            data = vec![vec![250], vec![7; 250]].concat();
        }
        let record = |owner: String| {
            let mut r = raw(kind, &data);
            r.name = wire_name(&owner);
            r
        };
        let mut wire = WireMessage::new(0, MessageType::Response, OpCode::Query);
        wire.answers = (0..200).map(|i| record(format!("n{i}.example.com."))).collect();
        let part = decode(&wire.to_vec().unwrap()).unwrap().answers;
        let mut answers = Vec::new();
        for _ in 0..6 {
            answers.extend(part.clone());
        }
        let ns = RData::NS(name("ns.example.com."));
        let last = Record { name: name("n1.example.com."), class: CLASS_IN, ttl: 7, data: ns };
        let outcome = ResolutionOutcome::noerror(answers.clone(), vec![last; 40]);
        let asked = decode(&request(4, "example.com.", RecordType::A)).unwrap();
        let octets = build_response(&asked, &asked.queries[0], outcome).unwrap();
        let reply = decode(&octets).unwrap();
        assert!(reply.header.truncation);
        assert!(0 < reply.answers.len() && reply.answers.len() < 1200);
        for (got, sent) in reply.answers.iter().zip(&answers) {
            assert_eq!(got.name.labels, sent.name.labels);
            assert_eq!(got.ttl, sent.ttl);
        }
        let parsed = WireMessage::from_vec(&octets).unwrap();
        let first = WireMessage::from_vec(&wire.to_vec().unwrap()).unwrap().answers;
        for (i, got) in parsed.answers.iter().enumerate() {
            assert_eq!(got, &first[i % 200]);
        }
        assert!(reply.authorities.len() < 40);
        assert!(reply.authorities.iter().all(|r| matches!(&r.data,
            RData::NS(n) if n.labels == name("ns.example.com.").labels)));
    }
}

#[test]
fn statuses_map_to_codes() {
    assert_eq!(map_status(ResolutionStatus::NoError), NO_ERROR);
    assert_eq!(map_status(ResolutionStatus::NxDomain), NX_DOMAIN);
    assert_eq!(map_status(ResolutionStatus::ServFail), SERV_FAIL);
    assert_eq!(map_status(ResolutionStatus::Timeout), SERV_FAIL);
    assert_eq!(map_status(ResolutionStatus::Malformed), SERV_FAIL);
    assert_eq!((NO_ERROR, SERV_FAIL, NX_DOMAIN), (0, 2, 3));
}

#[test]
fn servfail_reply_to_a_packet() {
    let reply = servfail_response_for_packet(&request(77, "busy.example.", RecordType::MX)).unwrap();
    let parsed = WireMessage::from_vec(&reply).unwrap();
    assert_eq!(parsed.metadata.id, 77);
    assert_eq!(parsed.metadata.response_code, ResponseCode::ServFail);
    assert_eq!(parsed.queries[0].name().to_ascii(), "busy.example.");
    assert!(parsed.answers.is_empty());
    assert!(servfail_response_for_packet(&[0, 1, 2]).is_none());
    let empty = WireMessage::new(1, MessageType::Query, OpCode::Query).to_vec().unwrap();
    assert!(servfail_response_for_packet(&empty).is_none());
}

#[test]
fn servfail_reply_to_every_operation() {
    for op_code in 0..16u8 {
        let mut packet = request(5, "example.com.", RecordType::A);
        packet[2] = op_code << 3;
        let reply = servfail_response_for_packet(&packet).unwrap();
        assert_eq!(reply[2] >> 3 & 15, op_code);
        assert_eq!(reply[3] & 15, 2);
    }
}

#[test]
fn blocked_questions_lead_nowhere() {
    let question = |query_type| Query { name: name("ads.example."), query_type, query_class: 3 };
    let out = blocked_outcome(&question(TYPE_A));
    assert_eq!(out.status, ResolutionStatus::NoError);
    assert_eq!(out.answers.len(), 1);
    assert_eq!(out.answers[0].ttl, 60);
    assert_eq!(out.answers[0].class, CLASS_IN);
    assert!(matches!(out.answers[0].data, RData::A(0)));
    let out = blocked_outcome(&question(TYPE_AAAA));
    assert!(matches!(out.answers[0].data, RData::AAAA(0)));
    let out = blocked_outcome(&question(16));
    assert!(out.answers.is_empty());
    assert!(out.authorities.is_empty());
}

#[test]
fn blocked_requests_are_answered_at_once() {
    let packet = request(3, "Sub.Ads.Example.", RecordType::A);
    match handle_request(&packet, &list(&["other.example", "ads.example"])) {
        Ok(Reaction::Reply(octets)) => {
            let parsed = WireMessage::from_vec(&octets).unwrap();
            assert_eq!(parsed.metadata.response_code, ResponseCode::NoError);
            assert_eq!(parsed.answers.len(), 1);
            assert_eq!(parsed.answers[0].name.to_ascii(), "Sub.Ads.Example.");
            assert!(matches!(parsed.answers[0].data, WireData::A(a) if a.0.is_unspecified()));
        }
        _ => panic!("the question is blocked"),
    }
}

#[test]
fn other_requests_are_resolved() {
    let packet = request(3, "loads.example.", RecordType::AAAA);
    match handle_request(&packet, &list(&["ads.example"])) {
        Ok(Reaction::Resolve { request, question }) => {
            assert_eq!(request.header.id, 3);
            assert_eq!(question.query_type, TYPE_AAAA);
            assert!(question.name.same(&name("LOADS.example.")));
        }
        _ => panic!("the question is to be resolved"),
    }
}

#[test]
fn requests_without_a_question_get_no_reply() {
    let empty = WireMessage::new(1, MessageType::Query, OpCode::Query).to_vec().unwrap();
    assert!(matches!(handle_request(&empty, &list(&[])), Err(PacketError::NoQuestion)));
    assert!(matches!(
        handle_request(&[1, 2, 3], &list(&[])),
        Err(PacketError::Malformed(WireError::Decode(_)))
    ));
    let message = decode(&empty).unwrap();
    assert!(matches!(react(message, true), Err(PacketError::NoQuestion)));
}

#[test]
fn messages_are_read_and_written_back() {
    let mut m = WireMessage::new(9, MessageType::Response, OpCode::Query);
    m.metadata.response_code = ResponseCode::Refused;
    m.metadata.authoritative = true;
    m.metadata.truncation = true;
    m.metadata.authentic_data = true;
    m.add_query(WireQuery::query(wire_name("a.b.c."), RecordType::SRV));
    m.add_answer(WireRecord::from_rdata(
        wire_name("a.b.c."),
        u32::MAX,
        WireData::TXT(hickory_proto::rr::rdata::TXT::new(vec!["text".to_string()])),
    ));
    m.edns = Some(Edns::new());
    let octets = m.to_vec().unwrap();
    let message = decode(&octets).unwrap();
    assert_eq!(message.answers[0].data.record_type(), 16);
    assert_eq!(message.header.response_code, 5);
    assert!(message.header.authoritative && message.header.truncation);
    assert!(message.header.authentic_data && message.edns.is_some());
    let copy = message.clone();
    assert_eq!(encode(copy).unwrap(), octets);
    assert_eq!(WireMessage::from_vec(&encode(message).unwrap()).unwrap(), m);
}

#[test]
fn too_many_questions_cannot_be_written() {
    let mut message = decode(&request(1, "example.com.", RecordType::A)).unwrap();
    message.queries = vec![message.queries[0].clone(); 0x1_0000];
    assert!(matches!(encode(message), Err(WireError::Encode(_))));
}

#[test]
fn modes_are_zero_and_one() {
    assert_eq!(parse_mode("0"), Some(true));
    assert_eq!(parse_mode("1"), Some(false));
    for other in ["", "2", "00", "10", "zero"] {
        assert_eq!(parse_mode(other), None);
    }
}

#[test]
fn runtime_configuration_is_plain_data() {
    let config = ResolverRuntimeConfig {
        upstream_timeout: Duration::from_millis(150),
        max_pending_upstreams: 2048,
    };
    let copy = config;
    assert_eq!(copy.upstream_timeout, config.upstream_timeout);
    assert_eq!(copy.max_pending_upstreams, 2048);
}
