use dns::cache::{
    cache_answers, cache_nxdomain, cache_servfail, recall, CachedValue, LookupCache, Recall, SECOND,
};
use dns::message::decode;
use dns::name::Name;
use dns::record::{RData, Record, CLASS_IN};
use hickory_proto::op::{Message, MessageType, OpCode};
use hickory_proto::rr::rdata::SOA;
use hickory_proto::rr::{Name as WireName, RData as WireData, Record as WireRecord};

fn record(ttl: u32, ip: u32) -> Record {
    let name = Name { labels: vec![b"example".to_vec()] };
    Record { name, class: CLASS_IN, ttl, data: RData::A(ip) }
}

fn soa_records(pairs: &[(u32, u32)]) -> Vec<Record> {
    let name = WireName::from_ascii("example.").unwrap();
    let mut m = Message::new(0, MessageType::Response, OpCode::Query);
    for (ttl, minimum) in pairs {
        let soa = SOA::new(name.clone(), name.clone(), 1, 2, 3, 4, *minimum);
        m.authorities.push(WireRecord::from_rdata(name.clone(), *ttl, WireData::SOA(soa)));
    }
    decode(&m.to_vec().unwrap()).unwrap().authorities
}

fn expiry(entry: &CachedValue) -> u64 {
    match entry {
        CachedValue::Answers { expires_at, .. } => *expires_at,
        CachedValue::NXDomain { expires_at } => *expires_at,
        CachedValue::ServFail { expires_at } => *expires_at,
    }
}

#[test]
fn answers_live_as_long_as_the_shortest_ttl() {
    let entry = cache_answers(&vec![record(300, 1), record(90, 2), record(120, 3)], 7);
    assert_eq!(expiry(&entry), 7 + 90 * SECOND);
    assert_eq!(expiry(&cache_answers(&vec![record(5, 1)], 0)), 30 * SECOND);
    assert_eq!(expiry(&cache_answers(&vec![record(0, 1), record(500, 1)], 0)), 30 * SECOND);
    assert_eq!(expiry(&cache_answers(&vec![], 0)), 60 * SECOND);
}

#[test]
fn negative_answers_live_as_the_zone_asks() {
    let life = |pairs: &[(u32, u32)]| expiry(&cache_nxdomain(&soa_records(pairs), 0)) / SECOND;
    assert_eq!(life(&[(300, 60)]), 60);
    assert_eq!(life(&[(45, 60)]), 45);
    assert_eq!(life(&[(300, 100), (80, 900)]), 80);
    assert_eq!(life(&[(300, 10)]), 30);
    assert_eq!(life(&[]), 60);
    assert_eq!(expiry(&cache_nxdomain(&vec![record(40, 1)], 0)), 60 * SECOND);
}

#[test]
fn failures_live_five_seconds() {
    assert_eq!(expiry(&cache_servfail(SECOND)), 6 * SECOND);
}

#[test]
fn recall_caps_the_ttls() {
    let entry = CachedValue::Answers {
        records: vec![record(300, 1), record(2, 2)],
        expires_at: 10 * SECOND,
    };
    match recall(entry.clone(), SECOND) {
        Recall::Answers(records) => {
            assert_eq!(records[0].ttl, 9);
            assert_eq!(records[1].ttl, 2);
            assert!(matches!(records[0].data, RData::A(1)));
        }
        _ => panic!("the entry has not expired"),
    }
    match recall(entry.clone(), 9 * SECOND + 1) {
        Recall::Answers(records) => assert_eq!((records[0].ttl, records[1].ttl), (0, 0)),
        _ => panic!("the entry has not expired"),
    }
    assert!(matches!(recall(entry, 10 * SECOND), Recall::Expired));
}

#[test]
fn recall_of_failures() {
    assert!(matches!(recall(CachedValue::NXDomain { expires_at: 5 }, 4), Recall::NXDomain));
    assert!(matches!(recall(CachedValue::NXDomain { expires_at: 5 }, 5), Recall::Expired));
    assert!(matches!(recall(CachedValue::ServFail { expires_at: 5 }, 4), Recall::ServFail));
    assert!(matches!(recall(CachedValue::ServFail { expires_at: 5 }, 6), Recall::Expired));
}

#[test]
fn ttls_that_overflow_the_field_wrap() {
    let expires_at = 0x1_0000_0002 * SECOND;
    let entry = CachedValue::Answers { records: vec![record(300, 1)], expires_at };
    match recall(entry, 0) {
        Recall::Answers(records) => assert_eq!(records[0].ttl, 2),
        _ => panic!("the entry has not expired"),
    }
}

#[test]
fn entries_can_be_replaced_and_removed() {
    let mut cache = LookupCache::new(10);
    let (a, b) = ("a|1".to_string(), "b|1".to_string());
    assert!(cache.get(&a).is_none());
    cache.insert(a.clone(), CachedValue::NXDomain { expires_at: 1 });
    cache.insert(b.clone(), CachedValue::ServFail { expires_at: 2 });
    assert!(matches!(cache.get(&a), Some(CachedValue::NXDomain { expires_at: 1 })));
    cache.insert(a.clone(), CachedValue::ServFail { expires_at: 3 });
    assert!(matches!(cache.get(&a), Some(CachedValue::ServFail { expires_at: 3 })));
    cache.invalidate(&a);
    assert!(cache.get(&a).is_none());
    assert!(matches!(cache.get(&b), Some(CachedValue::ServFail { expires_at: 2 })));
}

#[test]
fn entries_stay_up_to_the_limit() {
    let mut cache = LookupCache::new(2000);
    let key = |i: u64| format!("name{i}.example|1");
    for i in 0..2000 {
        cache.insert(key(i), CachedValue::ServFail { expires_at: i });
    }
    for i in 0..500 {
        cache.invalidate(&key(i));
        cache.insert(key(2000 + i), CachedValue::ServFail { expires_at: 2000 + i });
        cache.insert(key(1000 + i), CachedValue::ServFail { expires_at: 1000 + i });
    }
    for i in 0..2500 {
        match cache.get(&key(i)) {
            Some(CachedValue::ServFail { expires_at }) => assert!(i >= 500 && expires_at == i),
            Some(_) => panic!("another value was written"),
            None => assert!(i < 500),
        }
    }
}
