use dns::cache::{CachedValue, LookupCache, CLOCK_LIMIT, SECOND};
use dns::cache_util::make_cache_key;
use dns::name::Name;
use dns::record::{
    Query, RData, Record, SocketAddr, CLASS_IN, TYPE_A, TYPE_AAAA, TYPE_CNAME, TYPE_SOA,
};
use dns::resolver::iterative::{
    accept_reply, build_query, conclude, IterativeResolver, Progress,
};
use dns::resolver::lookup::{root_servers, LookupError};
use dns::resolver::types::{ResolutionOutcome, ResolutionStatus};
use hickory_proto::op::{Message, MessageType, OpCode, ResponseCode};
use hickory_proto::rr::rdata::{A, AAAA, CNAME, NS, SOA};
use hickory_proto::rr::Name as WireName;
use hickory_proto::rr::RData as WireData;
use hickory_proto::rr::Record as WireRecord;
use std::collections::{HashMap, VecDeque};

const NOW: u64 = 1_000 * SECOND;

struct Script {
    replies: HashMap<SocketAddr, VecDeque<Option<Vec<u8>>>>,
    sent: Vec<(SocketAddr, Vec<u8>)>,
}

impl Script {
    fn new() -> Self {
        Script { replies: HashMap::new(), sent: Vec::new() }
    }

    fn push_response(&mut self, server: SocketAddr, reply: Option<Vec<u8>>) {
        self.replies.entry(server).or_default().push_back(reply);
    }

    // Replies bear the identifier of the request.
    fn exchange(&mut self, request: &[u8], server: SocketAddr) -> Option<Vec<u8>> {
        self.sent.push((server, request.to_vec()));
        let octets = self.replies.get_mut(&server)?.pop_front()??;
        let asked = Message::from_vec(request).unwrap();
        match Message::from_vec(&octets) {
            Ok(mut m) => {
                m.metadata.id = asked.metadata.id;
                Some(m.to_vec().unwrap())
            }
            Err(_) => Some(octets),
        }
    }
}

fn resolve_at(
    question: &Query,
    script: &mut Script,
    cache: &mut LookupCache,
    now: u64,
) -> Option<ResolutionOutcome> {
    let mut progress = IterativeResolver::new(question).resume(None, cache, now);
    loop {
        match progress {
            Progress::Exchange { resolver, request, server } => {
                let reply = script.exchange(&request, server);
                progress = resolver.resume(reply, cache, now);
            }
            Progress::Done(outcome) => return Some(outcome),
            Progress::Abandoned => return None,
        }
    }
}

fn resolve(question: &Query, script: &mut Script, cache: &mut LookupCache) -> ResolutionOutcome {
    resolve_at(question, script, cache, NOW).unwrap()
}

fn wire_name(s: &str) -> WireName {
    WireName::from_ascii(s).unwrap()
}

fn name(s: &str) -> Name {
    Name { labels: wire_name(s).iter().map(Vec::from).collect() }
}

fn question(s: &str, query_type: u16) -> Query {
    Query { name: name(s), query_type, query_class: CLASS_IN }
}

fn a_record(owner: &str, ttl: u32, a: u8, b: u8, c: u8, d: u8) -> WireRecord {
    WireRecord::from_rdata(wire_name(owner), ttl, WireData::A(A::new(a, b, c, d)))
}

fn cname_record(owner: &str, ttl: u32, target: &str) -> WireRecord {
    WireRecord::from_rdata(wire_name(owner), ttl, WireData::CNAME(CNAME(wire_name(target))))
}

fn ns_record(owner: &str, ttl: u32, server: &str) -> WireRecord {
    WireRecord::from_rdata(wire_name(owner), ttl, WireData::NS(NS(wire_name(server))))
}

fn soa_record(ttl: u32, minimum: u32) -> WireRecord {
    WireRecord::from_rdata(
        wire_name("example.com."),
        ttl,
        WireData::SOA(SOA::new(
            wire_name("ns1.example.com."),
            wire_name("hostmaster.example.com."),
            1,
            2,
            3,
            4,
            minimum,
        )),
    )
}

fn response_with(
    id: u16,
    code: ResponseCode,
    answers: Vec<WireRecord>,
    authorities: Vec<WireRecord>,
    additionals: Vec<WireRecord>,
) -> Vec<u8> {
    let mut m = Message::new(id, MessageType::Response, OpCode::Query);
    m.metadata.response_code = code;
    m.answers = answers;
    m.authorities = authorities;
    m.additionals = additionals;
    m.to_vec().unwrap()
}

fn ok(
    answers: Vec<WireRecord>,
    authorities: Vec<WireRecord>,
    additionals: Vec<WireRecord>,
) -> Option<Vec<u8>> {
    Some(response_with(0, ResponseCode::NoError, answers, authorities, additionals))
}

fn v4(a: u8, b: u8, c: u8, d: u8) -> SocketAddr {
    SocketAddr::V4 { ip: u32::from_be_bytes([a, b, c, d]), port: 53 }
}

fn root() -> SocketAddr {
    v4(198, 41, 0, 4)
}

#[test]
fn direct_answer_path() {
    let mut script = Script::new();
    script.push_response(root(), ok(vec![a_record("example.com.", 120, 1, 2, 3, 4)], vec![], vec![]));
    let mut cache = LookupCache::new(100);
    let out = resolve(&question("example.com.", TYPE_A), &mut script, &mut cache);
    assert_eq!(out.status, ResolutionStatus::NoError);
    assert_eq!(out.answers.len(), 1);
}

#[test]
fn cname_chain_resolution() {
    let mut script = Script::new();
    script.push_response(
        root(),
        ok(vec![cname_record("www.example.com.", 120, "example.com.")], vec![], vec![]),
    );
    script.push_response(root(), ok(vec![a_record("example.com.", 120, 2, 2, 2, 2)], vec![], vec![]));
    let mut cache = LookupCache::new(100);
    let out = resolve(&question("www.example.com.", TYPE_A), &mut script, &mut cache);
    assert_eq!(out.status, ResolutionStatus::NoError);
    assert_eq!(out.answers.len(), 2);
}

#[test]
fn nxdomain_and_negative_cache() {
    let mut script = Script::new();
    let reply = response_with(0, ResponseCode::NXDomain, vec![], vec![soa_record(300, 60)], vec![]);
    script.push_response(root(), Some(reply));
    let mut cache = LookupCache::new(100);
    let out = resolve(&question("missing.example.com.", TYPE_A), &mut script, &mut cache);
    assert_eq!(out.status, ResolutionStatus::NxDomain);
    let key = make_cache_key(&name("missing.example.com."), TYPE_A);
    assert!(matches!(cache.get(&key), Some(CachedValue::NXDomain { .. })));
}

#[test]
fn servfail_short_term_cache() {
    let mut script = Script::new();
    script.push_response(
        root(),
        Some(response_with(0, ResponseCode::ServFail, vec![], vec![], vec![])),
    );
    let mut cache = LookupCache::new(100);
    let out = resolve(&question("broken.example.com.", TYPE_A), &mut script, &mut cache);
    assert_eq!(out.status, ResolutionStatus::ServFail);
    let key = make_cache_key(&name("broken.example.com."), TYPE_A);
    assert!(matches!(cache.get(&key), Some(CachedValue::ServFail { .. })));
}

#[test]
fn timeout_handling() {
    let mut cache = LookupCache::new(100);
    let mut script = Script::new();
    let out = resolve(&question("timeout.example.com.", TYPE_A), &mut script, &mut cache);
    assert_eq!(out.status, ResolutionStatus::Timeout);
}

#[test]
fn referral_with_glue_records() {
    let mut script = Script::new();
    script.push_response(
        root(),
        ok(
            vec![],
            vec![ns_record("example.com.", 300, "ns1.example.net.")],
            vec![a_record("ns1.example.net.", 300, 4, 4, 4, 4)],
        ),
    );
    script.push_response(
        v4(4, 4, 4, 4),
        ok(vec![a_record("x.example.com.", 300, 9, 9, 9, 9)], vec![], vec![]),
    );
    let mut cache = LookupCache::new(100);
    let out = resolve(&question("x.example.com.", TYPE_A), &mut script, &mut cache);
    assert_eq!(out.status, ResolutionStatus::NoError);
    assert_eq!(out.answers.len(), 1);
}

#[test]
fn referral_requires_ns_name_resolution() {
    let mut script = Script::new();
    script.push_response(
        root(),
        ok(vec![], vec![ns_record("example.com.", 300, "ns1.example.net.")], vec![]),
    );
    script.push_response(root(), ok(vec![a_record("ns1.example.net.", 300, 5, 5, 5, 5)], vec![], vec![]));
    script.push_response(
        v4(5, 5, 5, 5),
        ok(vec![a_record("x.example.com.", 300, 6, 6, 6, 6)], vec![], vec![]),
    );
    let mut cache = LookupCache::new(100);
    let out = resolve(&question("x.example.com.", TYPE_A), &mut script, &mut cache);
    assert_eq!(out.status, ResolutionStatus::NoError);
    assert_eq!(out.answers.len(), 1);
}

#[test]
fn cache_hit_ttl_adjustment() {
    let mut cache = LookupCache::new(100);
    let qn = name("cached.example.com.");
    let record = Record { name: qn.clone(), class: CLASS_IN, ttl: 300, data: RData::AAAA(1) };
    cache.insert(
        make_cache_key(&qn, TYPE_AAAA),
        CachedValue::Answers { records: vec![record], expires_at: NOW + 2 * SECOND },
    );
    let mut script = Script::new();
    let out = resolve(&question("cached.example.com.", TYPE_AAAA), &mut script, &mut cache);
    assert_eq!(out.status, ResolutionStatus::NoError);
    assert_eq!(out.answers.len(), 1);
    assert!(out.answers[0].ttl <= 2);
    assert!(script.sent.is_empty());
}

#[test]
fn transport_error_with_nxdomain_text_still_times_out_after_retries() {
    let mut script = Script::new();
    script.push_response(root(), None);
    let mut cache = LookupCache::new(100);
    let out = resolve(&question("message.example.com.", TYPE_A), &mut script, &mut cache);
    assert_eq!(out.status, ResolutionStatus::Timeout);
}

#[test]
fn queries_ask_for_the_name_without_recursion() {
    let octets = build_query(name("www.Example.com."), TYPE_AAAA, 0xABCD).unwrap();
    let m = Message::from_vec(&octets).unwrap();
    assert_eq!(m.metadata.id, 0xABCD);
    assert_eq!(m.metadata.message_type, MessageType::Query);
    assert_eq!(m.metadata.op_code, OpCode::Query);
    assert!(!m.metadata.recursion_desired);
    assert_eq!(m.queries.len(), 1);
    assert_eq!(m.queries[0].name().to_ascii(), "www.Example.com.");
    assert_eq!(u16::from(m.queries[0].query_type()), TYPE_AAAA);
    assert_eq!(u16::from(m.queries[0].query_class()), CLASS_IN);
    assert_eq!(octets[..2], [0xAB, 0xCD]);
}

#[test]
fn root_servers_are_asked_in_their_order() {
    let expected = [
        v4(198, 41, 0, 4),
        v4(199, 9, 14, 201),
        v4(192, 33, 4, 12),
        v4(199, 7, 91, 13),
        v4(192, 203, 230, 10),
        v4(192, 5, 5, 241),
        v4(192, 112, 36, 4),
        v4(198, 97, 190, 53),
        v4(192, 36, 148, 17),
        v4(192, 58, 128, 30),
        v4(193, 0, 14, 129),
        v4(199, 7, 83, 42),
        v4(202, 12, 27, 33),
    ];
    assert_eq!(root_servers(), expected);
    let mut cache = LookupCache::new(100);
    let mut script = Script::new();
    resolve(&question("silent.example.com.", TYPE_A), &mut script, &mut cache);
    let asked: Vec<SocketAddr> = script.sent.iter().map(|s| s.0).collect();
    assert_eq!(asked, expected);
    for (_, request) in &script.sent {
        let m = Message::from_vec(request).unwrap();
        assert_eq!(m.queries[0].name().to_ascii(), "silent.example.com.");
    }
    let key = make_cache_key(&name("silent.example.com."), TYPE_A);
    assert!(cache.get(&key).is_none());
}

#[test]
fn unusable_replies_count_as_none() {
    assert!(accept_reply(None, 7).is_none());
    assert!(accept_reply(Some(vec![1, 2, 3]), 7).is_none());
    let reply = response_with(8, ResponseCode::NoError, vec![], vec![], vec![]);
    assert!(accept_reply(Some(reply.clone()), 7).is_none());
    assert_eq!(accept_reply(Some(reply), 8).unwrap().header.id, 8);
}

#[test]
fn reply_with_another_identifier_is_not_used() {
    let mut cache = LookupCache::new(100);
    let q = question("example.com.", TYPE_A);
    let (resolver, server) = match IterativeResolver::new(&q).resume_with(None, &mut cache, NOW, 7) {
        Progress::Exchange { resolver, server, .. } => (resolver, server),
        _ => panic!("a server is to be asked"),
    };
    assert_eq!(server, root());
    let reply = response_with(
        8,
        ResponseCode::NoError,
        vec![a_record("example.com.", 60, 1, 1, 1, 1)],
        vec![],
        vec![],
    );
    match resolver.resume_with(Some(reply), &mut cache, NOW, 9) {
        Progress::Exchange { request, server, .. } => {
            assert_eq!(server, v4(199, 9, 14, 201));
            assert_eq!(request[..2], [0, 9]);
        }
        _ => panic!("the next server is to be asked"),
    }
}

#[test]
fn answers_match_names_in_any_case() {
    let mut script = Script::new();
    script.push_response(root(), ok(vec![a_record("EXAMPLE.com.", 120, 1, 2, 3, 4)], vec![], vec![]));
    let mut cache = LookupCache::new(100);
    let out = resolve(&question("example.COM.", TYPE_A), &mut script, &mut cache);
    assert_eq!(out.answers.len(), 1);
    assert!(matches!(out.answers[0].data, RData::A(0x0102_0304)));
    let out = resolve(&question("Example.Com.", TYPE_A), &mut script, &mut cache);
    assert_eq!(out.answers.len(), 1);
    assert_eq!(script.sent.len(), 1);
}

#[test]
fn alias_chain_comes_in_order() {
    let mut script = Script::new();
    script.push_response(root(), ok(vec![cname_record("a.example.", 90, "b.example.")], vec![], vec![]));
    script.push_response(root(), ok(vec![cname_record("b.example.", 80, "c.example.")], vec![], vec![]));
    script.push_response(root(), ok(vec![a_record("c.example.", 70, 3, 3, 3, 3)], vec![], vec![]));
    let mut cache = LookupCache::new(100);
    let out = resolve(&question("a.example.", TYPE_A), &mut script, &mut cache);
    let ttls: Vec<u32> = out.answers.iter().map(|r| r.ttl).collect();
    assert_eq!(ttls, [90, 80, 70]);
    let types: Vec<u16> = out.answers.iter().map(|r| r.data.record_type()).collect();
    assert_eq!(types, [TYPE_CNAME, TYPE_CNAME, TYPE_A]);
    let key = make_cache_key(&name("a.example."), TYPE_A);
    match cache.get(&key) {
        Some(CachedValue::Answers { records, expires_at }) => {
            assert_eq!(records.len(), 3);
            assert_eq!(expires_at, NOW + 70 * SECOND);
        }
        _ => panic!("the answer is kept under the name asked for"),
    }
}

#[test]
fn too_many_aliases_fail() {
    let mut script = Script::new();
    for _ in 0..16 {
        script.push_response(root(), ok(vec![cname_record("loop.example.", 60, "loop.example.")], vec![], vec![]));
    }
    let mut cache = LookupCache::new(100);
    let out = resolve(&question("loop.example.", TYPE_A), &mut script, &mut cache);
    assert_eq!(out.status, ResolutionStatus::ServFail);
    assert!(out.answers.is_empty());
    assert_eq!(script.sent.len(), 16);
}

#[test]
fn too_many_referrals_fail() {
    let mut script = Script::new();
    let server = v4(4, 4, 4, 4);
    let refer = || {
        ok(
            vec![],
            vec![ns_record("example.", 300, "ns.example.")],
            vec![a_record("ns.example.", 300, 4, 4, 4, 4)],
        )
    };
    script.push_response(root(), refer());
    for _ in 1..256 {
        script.push_response(server, refer());
    }
    script.push_response(server, ok(vec![a_record("x.example.", 60, 1, 1, 1, 1)], vec![], vec![]));
    let mut cache = LookupCache::new(100);
    let out = resolve(&question("x.example.", TYPE_A), &mut script, &mut cache);
    assert_eq!(out.status, ResolutionStatus::ServFail);
    assert_eq!(script.sent.len(), 256);
}

#[test]
fn referral_without_addresses_fails() {
    let mut script = Script::new();
    script.push_response(root(), ok(vec![], vec![ns_record("example.", 300, "ns.example.")], vec![]));
    let nothing = || Some(response_with(0, ResponseCode::NXDomain, vec![], vec![], vec![]));
    script.push_response(root(), nothing());
    script.push_response(root(), nothing());
    let mut cache = LookupCache::new(100);
    let out = resolve(&question("x.example.", TYPE_A), &mut script, &mut cache);
    assert_eq!(out.status, ResolutionStatus::ServFail);
    let types: Vec<u16> = script
        .sent
        .iter()
        .map(|s| u16::from(Message::from_vec(&s.1).unwrap().queries[0].query_type()))
        .collect();
    assert_eq!(types, [TYPE_A, TYPE_A, TYPE_AAAA]);
}

#[test]
fn nesting_stops_at_the_limit() {
    let mut script = Script::new();
    for i in 0..17 {
        let server = format!("ns{i}.example.");
        script.push_response(root(), ok(vec![], vec![ns_record("example.", 300, &server)], vec![]));
    }
    let mut cache = LookupCache::new(100);
    let out = resolve(&question("x.example.", TYPE_A), &mut script, &mut cache);
    assert_eq!(out.status, ResolutionStatus::ServFail);
    let first: Vec<String> = script.sent[..17]
        .iter()
        .map(|s| Message::from_vec(&s.1).unwrap().queries[0].name().to_ascii())
        .collect();
    assert_eq!(first[0], "x.example.");
    assert_eq!(first[1], "ns0.example.");
    assert_eq!(first[16], "ns15.example.");
    assert!(!script
        .sent
        .iter()
        .any(|s| Message::from_vec(&s.1).unwrap().queries[0].name().to_ascii() == "ns16.example."));
}

#[test]
fn no_data_gives_the_authority() {
    let mut script = Script::new();
    script.push_response(root(), ok(vec![], vec![soa_record(120, 60)], vec![]));
    let mut cache = LookupCache::new(100);
    let out = resolve(&question("example.com.", TYPE_AAAA), &mut script, &mut cache);
    assert_eq!(out.status, ResolutionStatus::NoError);
    assert!(out.answers.is_empty());
    assert_eq!(out.authorities.len(), 1);
    assert_eq!(out.authorities[0].data.record_type(), TYPE_SOA);
    let key = make_cache_key(&name("example.com."), TYPE_AAAA);
    match cache.get(&key) {
        Some(CachedValue::Answers { expires_at, .. }) => assert_eq!(expires_at, NOW + 120 * SECOND),
        _ => panic!("the answer is kept"),
    }
}

#[test]
fn outcomes_are_remembered_until_they_expire() {
    let q = question("missing.example.com.", TYPE_A);
    let mut script = Script::new();
    let gone = || Some(response_with(0, ResponseCode::NXDomain, vec![], vec![soa_record(300, 45)], vec![]));
    script.push_response(root(), gone());
    script.push_response(root(), gone());
    let mut cache = LookupCache::new(100);
    resolve_at(&q, &mut script, &mut cache, NOW);
    let out = resolve_at(&q, &mut script, &mut cache, NOW + 45 * SECOND - 1).unwrap();
    assert_eq!(out.status, ResolutionStatus::NxDomain);
    assert_eq!(script.sent.len(), 1);
    let out = resolve_at(&q, &mut script, &mut cache, NOW + 45 * SECOND).unwrap();
    assert_eq!(out.status, ResolutionStatus::NxDomain);
    assert_eq!(script.sent.len(), 2);
}

#[test]
fn failures_are_remembered_for_five_seconds() {
    let q = question("broken.example.com.", TYPE_A);
    let mut script = Script::new();
    let broken = || Some(response_with(0, ResponseCode::ServFail, vec![], vec![], vec![]));
    script.push_response(root(), broken());
    script.push_response(root(), broken());
    let mut cache = LookupCache::new(100);
    for now in [NOW, NOW + 5 * SECOND - 1] {
        let out = resolve_at(&q, &mut script, &mut cache, now).unwrap();
        assert_eq!(out.status, ResolutionStatus::ServFail);
    }
    assert_eq!(script.sent.len(), 1);
    resolve_at(&q, &mut script, &mut cache, NOW + 5 * SECOND);
    assert_eq!(script.sent.len(), 2);
}

#[test]
fn answers_come_back_with_the_seconds_left() {
    let q = question("example.com.", TYPE_A);
    let mut script = Script::new();
    script.push_response(
        root(),
        ok(
            vec![
                a_record("example.com.", 100, 1, 1, 1, 1),
                a_record("example.com.", 40, 2, 2, 2, 2),
            ],
            vec![],
            vec![],
        ),
    );
    let mut cache = LookupCache::new(100);
    resolve(&q, &mut script, &mut cache);
    let out = resolve_at(&q, &mut script, &mut cache, NOW + 15 * SECOND + 1).unwrap();
    let ttls: Vec<u32> = out.answers.iter().map(|r| r.ttl).collect();
    assert_eq!(ttls, [24, 24]);
    assert!(matches!(out.answers[0].data, RData::A(0x0101_0101)));
    assert!(matches!(out.answers[1].data, RData::A(0x0202_0202)));
    assert_eq!(script.sent.len(), 1);
}

#[test]
fn live_entries_answer_without_a_server() {
    let entries = [
        (CachedValue::NXDomain { expires_at: NOW + 1 }, ResolutionStatus::NxDomain),
        (CachedValue::ServFail { expires_at: NOW + 1 }, ResolutionStatus::ServFail),
        (CachedValue::Answers { records: vec![], expires_at: NOW + 1 }, ResolutionStatus::NoError),
    ];
    for (entry, status) in entries {
        let mut cache = LookupCache::new(100);
        let key = make_cache_key(&name("known.example."), TYPE_A);
        cache.insert(key.clone(), entry);
        let mut script = Script::new();
        let out = resolve(&question("KNOWN.example.", TYPE_A), &mut script, &mut cache);
        assert_eq!(out.status, status);
        assert!(script.sent.is_empty());
        assert!(cache.get(&key).is_some());
    }
}

#[test]
fn expired_entries_leave_the_cache() {
    let mut cache = LookupCache::new(100);
    let key = make_cache_key(&name("old.example."), TYPE_A);
    cache.insert(key.clone(), CachedValue::NXDomain { expires_at: NOW });
    let mut script = Script::new();
    let out = resolve(&question("old.example.", TYPE_A), &mut script, &mut cache);
    assert_eq!(out.status, ResolutionStatus::Timeout);
    assert_eq!(script.sent.len(), 13);
    assert!(cache.get(&key).is_none());
}

#[test]
fn nested_lookups_use_the_cache() {
    let mut cache = LookupCache::new(100);
    let server = name("ns.example.");
    let record = Record { name: server.clone(), class: CLASS_IN, ttl: 90, data: RData::A(0x0505_0505) };
    cache.insert(
        make_cache_key(&server, TYPE_A),
        CachedValue::Answers { records: vec![record], expires_at: NOW + SECOND },
    );
    cache.insert(make_cache_key(&server, TYPE_AAAA), CachedValue::NXDomain { expires_at: NOW + 1 });
    let mut script = Script::new();
    script.push_response(root(), ok(vec![], vec![ns_record("example.", 300, "NS.example.")], vec![]));
    script.push_response(
        v4(5, 5, 5, 5),
        ok(vec![a_record("x.example.", 60, 6, 6, 6, 6)], vec![], vec![]),
    );
    let out = resolve(&question("x.example.", TYPE_A), &mut script, &mut cache);
    assert_eq!(out.answers.len(), 1);
    assert_eq!(script.sent.len(), 2);
}

#[test]
fn a_second_resolution_repeats_the_first() {
    let q = question("www.example.com.", TYPE_A);
    let mut script = Script::new();
    script.push_response(
        root(),
        ok(vec![cname_record("www.example.com.", 500, "example.com.")], vec![], vec![]),
    );
    script.push_response(root(), ok(vec![], vec![soa_record(40, 60)], vec![]));
    let mut cache = LookupCache::new(100);
    let first = resolve(&q, &mut script, &mut cache);
    let again = resolve_at(&q, &mut script, &mut cache, NOW + 29 * SECOND).unwrap();
    assert_eq!(script.sent.len(), 2);
    assert_eq!(again.status, first.status);
    assert_eq!((first.answers.len(), first.authorities.len()), (1, 1));
    assert_eq!((again.answers.len(), again.authorities.len()), (1, 1));
    assert_eq!((first.answers[0].ttl, again.answers[0].ttl), (500, 11));
    assert_eq!((first.authorities[0].ttl, again.authorities[0].ttl), (40, 11));
}

#[test]
fn empty_alias_is_given_up() {
    let mut m = Message::new(0, MessageType::Response, OpCode::Update);
    m.answers = vec![WireRecord::update0(
        wire_name("odd.example."),
        60,
        hickory_proto::rr::RecordType::CNAME,
    )];
    let mut script = Script::new();
    script.push_response(root(), Some(m.to_vec().unwrap()));
    let mut cache = LookupCache::new(100);
    let q = question("odd.example.", TYPE_A);
    assert!(resolve_at(&q, &mut script, &mut cache, NOW).is_none());
}

#[test]
fn ipv6_glue_is_used() {
    let ip: u128 = 0x2001_0db8_0000_0000_0000_0000_0000_0053;
    let glue = WireRecord::from_rdata(
        wire_name("NS1.example.net."),
        300,
        WireData::AAAA(AAAA::new(0x2001, 0xdb8, 0, 0, 0, 0, 0, 0x53)),
    );
    let stray = a_record("other.example.net.", 300, 7, 7, 7, 7);
    let mut script = Script::new();
    script.push_response(
        root(),
        ok(vec![], vec![ns_record("example.com.", 300, "ns1.example.net.")], vec![stray, glue]),
    );
    let server = SocketAddr::V6 { ip, port: 53, flow_info: 0, scope_id: 0 };
    script.push_response(server, ok(vec![a_record("x.example.com.", 60, 9, 9, 9, 9)], vec![], vec![]));
    let mut cache = LookupCache::new(100);
    let out = resolve(&question("x.example.com.", TYPE_A), &mut script, &mut cache);
    assert_eq!(out.answers.len(), 1);
    assert_eq!(script.sent[1].0, server);
}

#[test]
fn outcomes_hold_every_record_once() {
    let reply = response_with(
        0,
        ResponseCode::NoError,
        vec![soa_record(10, 60), a_record("a.example.", 20, 1, 1, 1, 1)],
        vec![],
        vec![],
    );
    let mut records = dns::message::decode(&reply).unwrap().answers;
    records.push(records[0].clone());
    let out = conclude(Ok(records));
    assert_eq!(out.status, ResolutionStatus::NoError);
    let ttls = |records: &Vec<Record>| records.iter().map(|r| r.ttl).collect::<Vec<u32>>();
    assert_eq!(ttls(&out.answers), [20]);
    assert_eq!(ttls(&out.authorities), [10, 10]);
}

#[test]
fn other_entries_stay_in_the_cache() {
    let mut cache = LookupCache::new(100);
    let other = make_cache_key(&name("other.example."), TYPE_A);
    cache.insert(other.clone(), CachedValue::NXDomain { expires_at: 1 });
    let mut script = Script::new();
    script.push_response(root(), ok(vec![a_record("x.example.", 50, 1, 1, 1, 1)], vec![], vec![]));
    resolve(&question("x.example.", TYPE_A), &mut script, &mut cache);
    assert!(matches!(cache.get(&other), Some(CachedValue::NXDomain { expires_at: 1 })));
    let key = make_cache_key(&name("x.example."), TYPE_A);
    assert!(matches!(cache.get(&key), Some(CachedValue::Answers { .. })));
}

#[test]
fn error_statuses() {
    let status = |e| conclude(Err(e)).status;
    assert_eq!(status(LookupError::NoResponse), ResolutionStatus::Timeout);
    assert_eq!(status(LookupError::Malformed), ResolutionStatus::Malformed);
    assert_eq!(status(LookupError::NxDomain), ResolutionStatus::NxDomain);
    assert_eq!(status(LookupError::ServFail), ResolutionStatus::ServFail);
    assert_eq!(status(LookupError::DepthExceeded), ResolutionStatus::ServFail);
    assert_eq!(status(LookupError::NoAddresses), ResolutionStatus::ServFail);
    assert_eq!(status(LookupError::TooManySteps), ResolutionStatus::ServFail);
}

#[test]
fn the_last_allowed_time_works() {
    let mut script = Script::new();
    script.push_response(
        root(),
        ok(vec![a_record("example.com.", u32::MAX, 1, 2, 3, 4)], vec![], vec![]),
    );
    let mut cache = LookupCache::new(100);
    let out = resolve_at(&question("example.com.", TYPE_A), &mut script, &mut cache, CLOCK_LIMIT).unwrap();
    assert_eq!(out.answers[0].ttl, u32::MAX);
}
