//! What is kept of earlier lookups, and for how long.
use crate::record;
use crate::record::{Record, RecordView};
use crate::selection;
use moka::sync::Cache;
use vstd::prelude::*;

verus! {

/// A point in time, in nanoseconds on a clock that never goes back.
pub type Nanos = u64;

/// Nanoseconds in a second.
pub const SECOND: u64 = 1_000_000_000;

/// Times up to here can have any TTL added to them.
pub const CLOCK_LIMIT: u64 = 14_151_776_778_709_551_615;

/// The lifetime of an entry that no record sets, in seconds.
pub const DEFAULT_TTL: u32 = 60;

/// The shortest lifetime of an answer or of the knowledge that a name does not exist, in seconds.
pub const SHORTEST_TTL: u32 = 30;

/// The lifetime of the knowledge that a lookup failed, in seconds.
pub const SERV_FAIL_TTL: u32 = 5;

/// The result of a lookup, kept until it expires.
#[derive(Debug)]
pub enum CachedValue {
    Answers { records: Vec<Record>, expires_at: Nanos },
    NXDomain { expires_at: Nanos },
    ServFail { expires_at: Nanos },
}

/// What a [`CachedValue`] stands for.
pub enum CachedValueView {
    Answers { records: Seq<RecordView>, expires_at: Nanos },
    NXDomain { expires_at: Nanos },
    ServFail { expires_at: Nanos },
}

impl View for CachedValue {
    type V = CachedValueView;

    open spec fn view(&self) -> CachedValueView {
        match self {
            CachedValue::Answers { records, expires_at } => CachedValueView::Answers {
                records: record::records_view(records@),
                expires_at: *expires_at,
            },
            CachedValue::NXDomain { expires_at } => CachedValueView::NXDomain {
                expires_at: *expires_at,
            },
            CachedValue::ServFail { expires_at } => CachedValueView::ServFail {
                expires_at: *expires_at,
            },
        }
    }
}

impl Clone for CachedValue {
    fn clone(&self) -> (r: Self)
        ensures
            r@ == self@,
    {
        match self {
            CachedValue::Answers { records, expires_at } => CachedValue::Answers {
                records: record::clone_records(records),
                expires_at: *expires_at,
            },
            CachedValue::NXDomain { expires_at } => CachedValue::NXDomain {
                expires_at: *expires_at,
            },
            CachedValue::ServFail { expires_at } => CachedValue::ServFail {
                expires_at: *expires_at,
            },
        }
    }
}

impl CachedValueView {
    /// When the entry stops being of use.
    pub open spec fn expires_at(self) -> Nanos {
        match self {
            CachedValueView::Answers { expires_at, .. } => expires_at,
            CachedValueView::NXDomain { expires_at } => expires_at,
            CachedValueView::ServFail { expires_at } => expires_at,
        }
    }

    /// The records of the entry can stand in a message.
    pub open spec fn wf(self) -> bool {
        match self {
            CachedValueView::Answers { records, .. } => record::records_wf(records),
            _ => true,
        }
    }
}

/// The records of every entry can stand in a message.
pub open spec fn entries_wf(entries: Map<Seq<char>, CachedValueView>) -> bool {
    forall|key: Seq<char>| entries.contains_key(key) ==> (#[trigger] entries[key]).wf()
}

/// What a cached entry says at some time.
#[derive(Debug)]
pub enum Recall {
    /// The records, with TTLs that do not outlast the entry.
    Answers(Vec<Record>),
    /// The name does not exist.
    NXDomain,
    /// The lookup failed a moment ago.
    ServFail,
    /// Nothing any more.
    Expired,
}

/// What a [`Recall`] stands for.
pub enum RecallView {
    Answers(Seq<RecordView>),
    NXDomain,
    ServFail,
    Expired,
}

impl View for Recall {
    type V = RecallView;

    open spec fn view(&self) -> RecallView {
        match self {
            Recall::Answers(records) => RecallView::Answers(record::records_view(records@)),
            Recall::NXDomain => RecallView::NXDomain,
            Recall::ServFail => RecallView::ServFail,
            Recall::Expired => RecallView::Expired,
        }
    }
}

/// The whole seconds from `now` to `then`, as a TTL field holds them.
pub open spec fn seconds_left(then: Nanos, now: Nanos) -> u32 {
    ((then - now) / SECOND as int % 0x1_0000_0000) as u32
}

/// A record with its TTL cut down to at most `ttl`.
pub open spec fn capped(record: RecordView, ttl: u32) -> RecordView {
    RecordView { ttl: if ttl < record.ttl { ttl } else { record.ttl }, ..record }
}

/// What an entry says at the time `now`.
pub open spec fn recalled(entry: CachedValueView, now: Nanos) -> RecallView {
    if entry.expires_at() <= now {
        RecallView::Expired
    } else {
        match entry {
            CachedValueView::Answers { records, expires_at } => RecallView::Answers(
                records.map_values(|r: RecordView| capped(r, seconds_left(expires_at, now))),
            ),
            CachedValueView::NXDomain { .. } => RecallView::NXDomain,
            CachedValueView::ServFail { .. } => RecallView::ServFail,
        }
    }
}

/// Cuts down the TTLs of records to at most `ttl`.
fn cap_records(records: Vec<Record>, ttl: u32) -> (r: Vec<Record>)
    ensures
        record::records_view(r@) == record::records_view(records@).map_values(
            |r: RecordView| capped(r, ttl),
        ),
{
    let mut out: Vec<Record> = Vec::new();
    for i in 0..records.len()
        invariant
            out@.len() == i,
            forall|j: int| 0 <= j < i ==> (#[trigger] out@[j])@ == capped(records@[j]@, ttl),
    {
        let mut record = records[i].clone();
        if ttl < record.ttl {
            record.ttl = ttl;
        }
        out.push(record);
    }
    assert(record::records_view(out@) =~= record::records_view(records@).map_values(
        |r: RecordView| capped(r, ttl),
    ));
    out
}

/// What an entry says at the time `now`.
pub fn recall(entry: CachedValue, now: Nanos) -> (r: Recall)
    ensures
        r@ == recalled(entry@, now),
{
    match entry {
        CachedValue::Answers { records, expires_at } => {
            if expires_at > now {
                let seconds: u64 = (expires_at - now) / SECOND;
                assert(seconds as u32 == seconds % 0x1_0000_0000) by (bit_vector);
                #[verifier::truncate]
                let left: u32 = seconds as u32;
                Recall::Answers(cap_records(records, left))
            } else {
                Recall::Expired
            }
        },
        CachedValue::NXDomain { expires_at } => {
            if expires_at > now {
                Recall::NXDomain
            } else {
                Recall::Expired
            }
        },
        CachedValue::ServFail { expires_at } => {
            if expires_at > now {
                Recall::ServFail
            } else {
                Recall::Expired
            }
        },
    }
}

/// The smallest number of a list that is not empty.
pub open spec fn least(ttls: Seq<u32>) -> u32
    recommends
        ttls.len() > 0,
    decreases ttls.len(),
{
    if ttls.len() <= 1 {
        ttls[0]
    } else {
        let rest = least(ttls.drop_last());
        if rest < ttls.last() {
            rest
        } else {
            ttls.last()
        }
    }
}

/// How long to keep what these TTLs speak of: the smallest of them, but not too short.
pub open spec fn lifetime(ttls: Seq<u32>) -> u32 {
    let ttl = if ttls.len() == 0 {
        DEFAULT_TTL
    } else {
        least(ttls)
    };
    if ttl < SHORTEST_TTL {
        SHORTEST_TTL
    } else {
        ttl
    }
}

/// The TTLs of records.
pub open spec fn ttls(records: Seq<RecordView>) -> Seq<u32> {
    records.map_values(|r: RecordView| r.ttl)
}

/// The TTLs for negative answers that the start-of-authority records of a list give: each the
/// record's own or that of its data, whichever is smaller.
pub open spec fn negative_ttls(records: Seq<RecordView>) -> Seq<u32>
    decreases records.len(),
{
    if records.len() == 0 {
        seq![]
    } else {
        let rest = negative_ttls(records.drop_last());
        let last = records.last();
        match last.data {
            record::RDataView::SOA(soa) => rest.push(
                if soa.minimum_spec() < last.ttl {
                    soa.minimum_spec()
                } else {
                    last.ttl
                },
            ),
            _ => rest,
        }
    }
}

/// A time some seconds later.
pub open spec fn later(now: Nanos, ttl: u32) -> Nanos {
    (now + ttl * SECOND) as u64
}

fn after(now: Nanos, ttl: u32) -> (r: Nanos)
    requires
        now <= CLOCK_LIMIT,
    ensures
        r == later(now, ttl),
        r == now + ttl * SECOND,
{
    now + ttl as u64 * SECOND
}

fn lifetime_of(ttls: &Vec<u32>) -> (r: u32)
    ensures
        r == lifetime(ttls@),
{
    if ttls.len() == 0 {
        return DEFAULT_TTL;
    }
    let mut smallest: u32 = ttls[0];
    assert(ttls@.take(1).len() == 1);
    for i in 1..ttls.len()
        invariant
            ttls@.len() > 0,
            smallest == least(ttls@.take(i as int)),
    {
        assert(ttls@.take(i + 1).drop_last() == ttls@.take(i as int));
        if ttls[i] <= smallest {
            smallest = ttls[i];
        }
    }
    assert(ttls@.take(ttls@.len() as int) == ttls@);
    if smallest < SHORTEST_TTL {
        SHORTEST_TTL
    } else {
        smallest
    }
}

/// The entry for records that were found at the time `now`.
pub open spec fn answers_entry(records: Seq<RecordView>, now: Nanos) -> CachedValueView {
    CachedValueView::Answers { records, expires_at: later(now, lifetime(ttls(records))) }
}

/// The entry for a name that was found not to exist at the time `now`.
pub open spec fn nxdomain_entry(authorities: Seq<RecordView>, now: Nanos) -> CachedValueView {
    CachedValueView::NXDomain { expires_at: later(now, lifetime(negative_ttls(authorities))) }
}

/// The entry for a lookup that failed at the time `now`.
pub open spec fn servfail_entry(now: Nanos) -> CachedValueView {
    CachedValueView::ServFail { expires_at: later(now, SERV_FAIL_TTL) }
}

/// The entry for records that were found at the time `now`.
pub fn cache_answers(records: &Vec<Record>, now: Nanos) -> (r: CachedValue)
    requires
        now <= CLOCK_LIMIT,
    ensures
        r@ == answers_entry(record::records_view(records@), now),
{
    let ghost view = record::records_view(records@);
    let mut all: Vec<u32> = Vec::new();
    for i in 0..records.len()
        invariant
            view == record::records_view(records@),
            all@ == ttls(view.take(i as int)),
    {
        all.push(records[i].ttl);
        assert(all@ =~= ttls(view.take(i + 1)));
    }
    assert(view.take(view.len() as int) == view);
    let expires_at = after(now, lifetime_of(&all));
    CachedValue::Answers { records: record::clone_records(records), expires_at }
}

/// The entry for a name that was found not to exist at the time `now`, by a response with these
/// authority records.
pub fn cache_nxdomain(authorities: &Vec<Record>, now: Nanos) -> (r: CachedValue)
    requires
        now <= CLOCK_LIMIT,
    ensures
        r@ == nxdomain_entry(record::records_view(authorities@), now),
{
    let ghost view = record::records_view(authorities@);
    let mut all: Vec<u32> = Vec::new();
    for i in 0..authorities.len()
        invariant
            view == record::records_view(authorities@),
            all@ == negative_ttls(view.take(i as int)),
    {
        assert(view.take(i + 1).drop_last() == view.take(i as int));
        let ttl: u32 = authorities[i].ttl;
        match &authorities[i].data {
            record::RData::SOA(soa) => {
                let minimum: u32 = soa.minimum();
                all.push(if minimum < ttl { minimum } else { ttl });
            },
            _ => {},
        }
    }
    assert(view.take(view.len() as int) == view);
    let expires_at = after(now, lifetime_of(&all));
    CachedValue::NXDomain { expires_at }
}

/// The entry for a lookup that failed at the time `now`.
pub fn cache_servfail(now: Nanos) -> (r: CachedValue)
    requires
        now <= CLOCK_LIMIT,
    ensures
        r@ == servfail_entry(now),
{
    CachedValue::ServFail { expires_at: after(now, SERV_FAIL_TTL) }
}

/// The cache of the `moka` crate.
#[verifier::external_type_specification]
#[verifier::external_body]
#[verifier::reject_recursive_types(K)]
#[verifier::reject_recursive_types(V)]
#[verifier::reject_recursive_types(S)]
pub struct ExCache<K, V, S>(Cache<K, V, S>);

/// What a cache that has one owner may still give back: for each key that was written and not
/// removed since, the value that was written last.
pub uninterp spec fn cache_entries(cache: Cache<String, CachedValue>) -> Map<
    Seq<char>,
    CachedValueView,
>;

/// How many entries a cache was made to keep.
pub uninterp spec fn cache_limit(cache: Cache<String, CachedValue>) -> nat;

/// The cache has given up none of its entries.
pub uninterp spec fn cache_whole(cache: Cache<String, CachedValue>) -> bool;

/// A cache with nothing in it.
pub open spec fn no_entries() -> Map<Seq<char>, CachedValueView> {
    Map::empty()
}

/// `moka`'s `Cache::new`: a cache that keeps up to so many entries. Nothing is in it, and nothing
/// has been given up.
#[verifier::external_body]
fn moka_new(capacity: u64) -> (r: Cache<String, CachedValue>)
    ensures
        cache_entries(r) == no_entries(),
        cache_limit(r) == capacity,
        cache_whole(r),
{
    Cache::new(capacity)
}

/// `moka`'s `Cache::get`: a copy of the value under a key, or nothing. The value is the one that
/// was written last. It comes back for certain as long as the cache has given up no entry; which
/// entries a cache gives up that was asked to hold more than its limit, and when, is not claimed.
#[verifier::external_body]
fn moka_get(cache: &Cache<String, CachedValue>, key: &String) -> (r: Option<CachedValue>)
    ensures
        r matches Some(value) ==> cache_entries(*cache).contains_key(key@)
            && value@ == cache_entries(*cache)[key@],
        cache_whole(*cache) && cache_entries(*cache).contains_key(key@) ==> r is Some,
{
    cache.get(key)
}

/// `moka`'s `Cache::insert`: puts a value under a key, in place of the one that was there. Every
/// entry counts as one, so a cache that has given up nothing gives up nothing now either, unless
/// there are more entries than its limit.
#[verifier::external_body]
fn moka_insert(cache: &mut Cache<String, CachedValue>, key: String, value: CachedValue)
    ensures
        cache_entries(*final(cache)) == cache_entries(*old(cache)).insert(key@, value@),
        cache_limit(*final(cache)) == cache_limit(*old(cache)),
        cache_whole(*old(cache)) && cache_entries(*final(cache)).dom().len() <= cache_limit(
            *old(cache),
        ) ==> cache_whole(*final(cache)),
{
    cache.insert(key, value)
}

/// `moka`'s `Cache::invalidate`: removes the value under a key, and no other.
#[verifier::external_body]
fn moka_invalidate(cache: &mut Cache<String, CachedValue>, key: &String)
    ensures
        cache_entries(*final(cache)) == cache_entries(*old(cache)).remove(key@),
        cache_limit(*final(cache)) == cache_limit(*old(cache)),
        cache_whole(*old(cache)) ==> cache_whole(*final(cache)),
{
    cache.invalidate(key)
}

/// The cache of lookup results. It never changes an entry. Once it has been asked to hold more
/// entries than its limit, it may forget one at any time.
pub struct LookupCache {
    inner: Cache<String, CachedValue>,
}

impl View for LookupCache {
    type V = Map<Seq<char>, CachedValueView>;

    closed spec fn view(&self) -> Map<Seq<char>, CachedValueView> {
        cache_entries(self.inner)
    }
}

impl LookupCache {
    /// How many entries the cache was made to keep.
    pub closed spec fn limit(&self) -> nat {
        cache_limit(self.inner)
    }

    /// The cache has forgotten none of its entries.
    pub closed spec fn whole(&self) -> bool {
        cache_whole(self.inner)
    }

    /// A cache for so many entries, with nothing in it.
    pub fn new(capacity: u64) -> (r: Self)
        ensures
            r@ == no_entries(),
            r.limit() == capacity,
            r.whole(),
    {
        LookupCache { inner: moka_new(capacity) }
    }

    /// The entry under a key, unless there is none or it was forgotten. A cache that is whole has
    /// forgotten nothing.
    pub fn get(&self, key: &String) -> (r: Option<CachedValue>)
        ensures
            r matches Some(value) ==> self@.contains_key(key@) && value@ == self@[key@],
            self.whole() ==> (r is Some <==> self@.contains_key(key@)),
    {
        moka_get(&self.inner, key)
    }

    /// Puts an entry under a key. A whole cache stays whole as long as it does not come to hold
    /// more entries than its limit.
    pub fn insert(&mut self, key: String, value: CachedValue)
        ensures
            final(self)@ == old(self)@.insert(key@, value@),
            final(self).limit() == old(self).limit(),
            old(self).whole() && final(self)@.dom().len() <= old(self).limit()
                ==> final(self).whole(),
    {
        moka_insert(&mut self.inner, key, value);
    }

    /// Removes the entry under a key.
    pub fn invalidate(&mut self, key: &String)
        ensures
            final(self)@ == old(self)@.remove(key@),
            final(self).limit() == old(self).limit(),
            old(self).whole() ==> final(self).whole(),
    {
        moka_invalidate(&mut self.inner, key);
    }
}

/// The smallest number of a list is in it and above no other.
pub proof fn lemma_least(ttls: Seq<u32>)
    requires
        ttls.len() > 0,
    ensures
        ttls.contains(least(ttls)),
        forall|i: int| 0 <= i < ttls.len() ==> least(ttls) <= #[trigger] ttls[i],
    decreases ttls.len(),
{
    if ttls.len() > 1 {
        let rest = ttls.drop_last();
        lemma_least(rest);
        let i = choose|i: int| 0 <= i < rest.len() && rest[i] == least(rest);
        assert(ttls[i] == least(rest));
        assert(ttls[ttls.len() - 1] == ttls.last());
        assert forall|j: int| 0 <= j < ttls.len() implies least(ttls) <= #[trigger] ttls[j] by {
            if j < rest.len() {
                assert(rest[j] == ttls[j]);
            }
        }
    } else {
        assert(ttls[0] == least(ttls));
    }
}

/// Nothing is kept for less than the shortest lifetime, and nothing for longer than each of its
/// TTLs unless one is shorter than that.
pub proof fn law_lifetime_bounds(ttls: Seq<u32>)
    ensures
        lifetime(ttls) >= SHORTEST_TTL,
        forall|i: int|
            0 <= i < ttls.len() ==> lifetime(ttls) <= #[trigger] ttls[i] || lifetime(ttls)
                == SHORTEST_TTL,
        ttls.len() == 0 ==> lifetime(ttls) == DEFAULT_TTL,
{
    if ttls.len() > 0 {
        lemma_least(ttls);
    }
}

/// Records that were put in the cache come back until they expire, all of them and in their
/// order, each with the TTL it had or the seconds that are left, whichever is smaller.
pub proof fn law_answers_come_back(records: Seq<RecordView>, stored: Nanos, now: Nanos)
    requires
        stored <= CLOCK_LIMIT,
        stored <= now < stored + lifetime(ttls(records)) * SECOND,
    ensures
        recalled(answers_entry(records, stored), now) is Answers,
        ({
            let back = recalled(answers_entry(records, stored), now)->Answers_0;
            let left = (stored + lifetime(ttls(records)) * SECOND - now) / SECOND as int;
            &&& back.len() == records.len()
            &&& forall|i: int|
                0 <= i < back.len() ==> {
                    &&& (#[trigger] back[i]).name == records[i].name
                    &&& back[i].class == records[i].class
                    &&& back[i].data == records[i].data
                    &&& back[i].ttl == if left < records[i].ttl {
                        left
                    } else {
                        records[i].ttl as int
                    }
                }
        }),
{
    let ttl = lifetime(ttls(records));
    assert(ttl * SECOND <= 0xffff_ffff * 1_000_000_000) by (nonlinear_arith)
        requires
            ttl <= 0xffff_ffff,
            SECOND == 1_000_000_000,
    ;
    assert(later(stored, ttl) == stored + ttl * SECOND);
}

/// What was put in the cache says nothing any more once its lifetime is over.
pub proof fn law_entries_expire(entry: CachedValueView, now: Nanos)
    ensures
        recalled(entry, now) is Expired <==> entry.expires_at() <= now,
{
}

/// That a name does not exist is known for as long as the zone asks for, and that a lookup failed
/// for a few seconds.
pub proof fn law_failures_are_remembered(authorities: Seq<RecordView>, stored: Nanos, now: Nanos)
    requires
        stored <= CLOCK_LIMIT,
        stored <= now,
    ensures
        recalled(nxdomain_entry(authorities, stored), now) == if now < stored + lifetime(
            negative_ttls(authorities),
        ) * SECOND {
            RecallView::NXDomain
        } else {
            RecallView::Expired
        },
        recalled(servfail_entry(stored), now) == if now < stored + SERV_FAIL_TTL * SECOND {
            RecallView::ServFail
        } else {
            RecallView::Expired
        },
{
    let ttl = lifetime(negative_ttls(authorities));
    assert(ttl * SECOND <= 0xffff_ffff * 1_000_000_000) by (nonlinear_arith)
        requires
            ttl <= 0xffff_ffff,
            SECOND == 1_000_000_000,
    ;
    assert(later(stored, ttl) == stored + ttl * SECOND);
}

/// As time goes by, the TTLs that come back never grow.
pub proof fn law_ttls_never_grow(records: Seq<RecordView>, stored: Nanos, now: Nanos, then: Nanos)
    requires
        stored <= CLOCK_LIMIT,
        stored <= now <= then < stored + lifetime(ttls(records)) * SECOND,
    ensures
        ({
            let earlier = recalled(answers_entry(records, stored), now)->Answers_0;
            let after = recalled(answers_entry(records, stored), then)->Answers_0;
            forall|i: int|
                0 <= i < records.len() ==> (#[trigger] after[i]).ttl <= earlier[i].ttl
                    <= records[i].ttl
        }),
{
    law_answers_come_back(records, stored, now);
    law_answers_come_back(records, stored, then);
    let end = stored + lifetime(ttls(records)) * SECOND;
    assert((end - then) / SECOND as int <= (end - now) / SECOND as int);
}

/// What was found is kept for exactly the smallest of its TTLs, if that is half a minute or more;
/// if one of them is less, for half a minute; and for a minute if there are none.
pub proof fn law_lifetime_is_the_smallest_ttl(ttls: Seq<u32>)
    ensures
        ttls.len() == 0 ==> lifetime(ttls) == 60,
        ttls.len() > 0 && (forall|i: int| 0 <= i < ttls.len() ==> #[trigger] ttls[i] >= 30) ==> {
            &&& ttls.contains(lifetime(ttls))
            &&& forall|i: int| 0 <= i < ttls.len() ==> lifetime(ttls) <= #[trigger] ttls[i]
        },
        (exists|i: int| 0 <= i < ttls.len() && #[trigger] ttls[i] < 30) ==> lifetime(ttls) == 30,
{
    if ttls.len() > 0 {
        lemma_least(ttls);
        let k = choose|k: int| 0 <= k < ttls.len() && ttls[k] == least(ttls);
        assert(ttls[k] == least(ttls));
    }
}

/// What was found is kept for at least as long as all of its TTLs allow.
pub proof fn law_lifetime_reaches_every_lower_bound(ttls: Seq<u32>, bound: u32)
    requires
        ttls.len() > 0,
        forall|i: int| 0 <= i < ttls.len() ==> bound <= #[trigger] ttls[i],
    ensures
        bound <= lifetime(ttls),
{
    lemma_least(ttls);
    let k = choose|k: int| 0 <= k < ttls.len() && ttls[k] == least(ttls);
    assert(ttls[k] == least(ttls));
}

proof fn lemma_added(stored: Nanos, ttl: u32)
    requires
        stored <= CLOCK_LIMIT,
    ensures
        later(stored, ttl) == stored + ttl * 1_000_000_000,
{
    assert(ttl * SECOND <= 0xffff_ffff * 1_000_000_000) by (nonlinear_arith)
        requires
            ttl <= 0xffff_ffff,
            SECOND == 1_000_000_000,
    ;
}

/// Records are kept as they are, all of them and in their order, for exactly as many seconds as
/// the smallest of their TTLs says, if that is half a minute or more; if a TTL is less, for half a
/// minute; and for a minute if there are no records.
pub proof fn law_answers_are_kept_as_their_ttls_say(records: Seq<RecordView>, stored: Nanos)
    requires
        stored <= CLOCK_LIMIT,
    ensures
        answers_entry(records, stored) matches CachedValueView::Answers {
            records: kept,
            expires_at,
        } && {
            &&& kept == records
            &&& records.len() == 0 ==> expires_at == stored + 60_000_000_000
            &&& records.len() > 0 && (forall|i: int|
                0 <= i < records.len() ==> (#[trigger] records[i]).ttl >= 30) ==> exists|i: int|
                {
                    &&& 0 <= i < records.len()
                    &&& expires_at == stored + (#[trigger] records[i]).ttl * 1_000_000_000
                    &&& forall|j: int|
                        0 <= j < records.len() ==> records[i].ttl <= (#[trigger] records[j]).ttl
                }
            &&& (exists|i: int| 0 <= i < records.len() && (#[trigger] records[i]).ttl < 30)
                ==> expires_at == stored + 30_000_000_000
        },
{
    let all = ttls(records);
    lemma_added(stored, lifetime(all));
    law_lifetime_is_the_smallest_ttl(all);
    assert forall|i: int| 0 <= i < records.len() implies (#[trigger] records[i]).ttl == all[i] by {
    }
    if exists|i: int| 0 <= i < records.len() && (#[trigger] records[i]).ttl < 30 {
        let i = choose|i: int| 0 <= i < records.len() && (#[trigger] records[i]).ttl < 30;
        assert(all[i] < 30);
    } else if records.len() > 0 {
        assert forall|i: int| 0 <= i < all.len() implies #[trigger] all[i] >= 30 by {
            assert(records[i].ttl >= 30);
        }
        let i = choose|i: int| 0 <= i < all.len() && all[i] == lifetime(all);
        assert(records[i].ttl == lifetime(all));
        assert forall|j: int| 0 <= j < records.len() implies records[i].ttl <= (
        #[trigger] records[j]).ttl by {
            assert(lifetime(all) <= all[j]);
        }
    }
}

/// How long a start-of-authority record lets it be known that a name does not exist, in seconds:
/// the record's TTL, but no longer than its data says.
pub open spec fn denial_ttl(r: RecordView) -> int {
    if r.ttl <= r.data->SOA_0.minimum_spec() {
        r.ttl as int
    } else {
        r.data->SOA_0.minimum_spec() as int
    }
}

proof fn lemma_negative_ttls(records: Seq<RecordView>)
    ensures
        selection::selection(
            records,
            |r: RecordView| r.data is SOA,
            |r: RecordView| denial_ttl(r) as u32,
            negative_ttls(records),
        ),
    decreases records.len(),
{
    let keep = |r: RecordView| r.data is SOA;
    let give = |r: RecordView| denial_ttl(r) as u32;
    if records.len() == 0 {
        selection::lemma_selection_empty(records, keep, give);
    } else {
        let (rest, last) = (records.drop_last(), records.last());
        lemma_negative_ttls(rest);
        selection::lemma_selection_push(rest, last, keep, give, negative_ttls(rest));
        assert(rest.push(last) =~= records);
    }
}

/// That a name does not exist is kept for exactly as long as the start-of-authority records of the
/// response allow, each of them, if that is half a minute or more; if one allows less, for half a
/// minute; and for a minute if there is no such record.
pub proof fn law_denials_are_kept_as_the_zone_says(authorities: Seq<RecordView>, stored: Nanos)
    requires
        stored <= CLOCK_LIMIT,
    ensures
        nxdomain_entry(authorities, stored) matches CachedValueView::NXDomain { expires_at } && {
            &&& (forall|i: int|
                0 <= i < authorities.len() ==> !((#[trigger] authorities[i]).data is SOA))
                ==> expires_at == stored + 60_000_000_000
            &&& (exists|i: int|
                0 <= i < authorities.len() && (#[trigger] authorities[i]).data is SOA
                    && denial_ttl(authorities[i]) < 30) ==> expires_at == stored + 30_000_000_000
            &&& (exists|i: int|
                0 <= i < authorities.len() && (#[trigger] authorities[i]).data is SOA) && (forall|
                i: int,
            |
                0 <= i < authorities.len() && (#[trigger] authorities[i]).data is SOA
                    ==> denial_ttl(authorities[i]) >= 30) ==> exists|i: int|
                {
                    &&& 0 <= i < authorities.len()
                    &&& (#[trigger] authorities[i]).data is SOA
                    &&& expires_at == stored + denial_ttl(authorities[i]) * 1_000_000_000
                    &&& forall|j: int|
                        0 <= j < authorities.len() && (#[trigger] authorities[j]).data is SOA
                            ==> denial_ttl(authorities[i]) <= denial_ttl(authorities[j])
                }
        },
{
    let all = negative_ttls(authorities);
    let keep = |r: RecordView| r.data is SOA;
    let give = |r: RecordView| denial_ttl(r) as u32;
    lemma_added(stored, lifetime(all));
    law_lifetime_is_the_smallest_ttl(all);
    lemma_negative_ttls(authorities);
    selection::lemma_selection_holds(authorities, keep, give, all);
    if exists|i: int|
        0 <= i < authorities.len() && (#[trigger] authorities[i]).data is SOA && denial_ttl(
            authorities[i],
        ) < 30 {
        let i = choose|i: int|
            0 <= i < authorities.len() && (#[trigger] authorities[i]).data is SOA && denial_ttl(
                authorities[i],
            ) < 30;
        assert(keep(authorities[i]));
        assert(all.contains(give(authorities[i])));
        let k = choose|k: int| 0 <= k < all.len() && all[k] == give(authorities[i]);
        assert(all[k] < 30);
    } else if exists|i: int| 0 <= i < authorities.len() && (#[trigger] authorities[i]).data is SOA {
        let n = choose|i: int|
            0 <= i < authorities.len() && (#[trigger] authorities[i]).data is SOA;
        assert(keep(authorities[n]));
        assert forall|k: int| 0 <= k < all.len() implies #[trigger] all[k] >= 30 by {
            let i = choose|i: int|
                0 <= i < authorities.len() && keep(#[trigger] authorities[i]) && all[k] == give(
                    authorities[i],
                );
            assert(authorities[i].data is SOA);
        }
        let k = choose|k: int| 0 <= k < all.len() && all[k] == lifetime(all);
        let i = choose|i: int|
            0 <= i < authorities.len() && keep(#[trigger] authorities[i]) && all[k] == give(
                authorities[i],
            );
        assert(authorities[i].data is SOA);
        assert(denial_ttl(authorities[i]) == lifetime(all));
        assert forall|j: int|
            0 <= j < authorities.len() && (
            #[trigger] authorities[j]).data is SOA implies denial_ttl(authorities[i])
            <= denial_ttl(authorities[j]) by {
            assert(keep(authorities[j]));
            assert(all.contains(give(authorities[j])));
            let m = choose|m: int| 0 <= m < all.len() && all[m] == give(authorities[j]);
            assert(lifetime(all) <= all[m]);
        }
    } else {
        if all.len() > 0 {
            let i = choose|i: int| 0 <= i < authorities.len() && keep(#[trigger] authorities[i]);
            assert(authorities[i].data is SOA);
        }
    }
}

/// That a lookup failed is kept for five seconds.
pub proof fn law_failures_are_kept_for_five_seconds(stored: Nanos)
    requires
        stored <= CLOCK_LIMIT,
    ensures
        servfail_entry(stored) matches CachedValueView::ServFail { expires_at } && expires_at
            == stored + 5_000_000_000,
{
}

/// An entry says nothing from the moment when it expires, and before that what it was made of.
/// Records come back all, in their order and as they were, but for TTLs above the whole seconds
/// that are left, which are cut down to them.
pub proof fn law_entries_say_what_they_were_made_of(entry: CachedValueView, now: Nanos)
    ensures
        match entry {
            CachedValueView::Answers { records, expires_at } => if now < expires_at {
                recalled(entry, now) matches RecallView::Answers(back) && {
                    &&& back.len() == records.len()
                    &&& forall|i: int|
                        0 <= i < records.len() ==> {
                            let left = (expires_at - now) / 1_000_000_000 % 0x1_0000_0000;
                            let (r, b) = (records[i], #[trigger] back[i]);
                            &&& b.name == r.name
                            &&& b.class == r.class
                            &&& b.data == r.data
                            &&& b.ttl <= r.ttl && b.ttl <= left
                            &&& b.ttl == r.ttl || b.ttl == left
                        }
                }
            } else {
                recalled(entry, now) is Expired
            },
            CachedValueView::NXDomain { expires_at } => if now < expires_at {
                recalled(entry, now) is NXDomain
            } else {
                recalled(entry, now) is Expired
            },
            CachedValueView::ServFail { expires_at } => if now < expires_at {
                recalled(entry, now) is ServFail
            } else {
                recalled(entry, now) is Expired
            },
        },
{
}

/// The clock has room for the longest TTL at any time up to its limit, and at no later time.
pub proof fn law_the_clock_has_room_for_any_ttl()
    ensures
        SECOND == 1_000_000_000,
        CLOCK_LIMIT + u32::MAX * SECOND == u64::MAX,
{
}

/// What entries stand for leaves nothing of them out, and an entry's records can stand in a
/// message exactly if each of them can.
pub proof fn law_views_of_entries_leave_nothing_out(value: CachedValue, entry: CachedValueView)
    ensures
        match value {
            CachedValue::Answers { records, expires_at } => value@ == (CachedValueView::Answers {
                records: record::records_view(records@),
                expires_at,
            }),
            CachedValue::NXDomain { expires_at } => value@ == (CachedValueView::NXDomain {
                expires_at,
            }),
            CachedValue::ServFail { expires_at } => value@ == (CachedValueView::ServFail {
                expires_at,
            }),
        },
        entry.wf() <==> (entry is Answers ==> forall|i: int|
            0 <= i < entry->records.len() ==> (#[trigger] entry->records[i]).wf()),
        entries_wf(no_entries()),
{
}

} // verus!
