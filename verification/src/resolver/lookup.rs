//! One lookup: the steps from a name to its records.
use crate::cache;
use crate::cache::{CachedValue, CachedValueView, Nanos, Recall, RecallView};
use crate::message::{Message, MessageView};
use crate::name;
use crate::name::Name;
use crate::record;
use crate::record::{RData, Record, RecordView, SocketAddr};
use crate::resolver::response;
use crate::resolver::response::{Verdict, VerdictView};
use crate::selection;
use vstd::prelude::*;

verus! {

/// How deep lookups of server names may nest.
pub const MAX_DEPTH: usize = 16;

/// How often a lookup starts over: one round ends with an alias or when its hops are used up.
pub const MAX_ROUNDS: usize = 16;

/// How many servers' referrals a lookup follows in one round.
pub const MAX_HOPS: usize = 16;

/// Why a lookup gave no records.
#[derive(Debug, Clone, Copy, PartialEq, Eq, Structural)]
pub enum LookupError {
    /// Lookups of server names nested too deep.
    DepthExceeded,
    /// The name does not exist.
    NxDomain,
    /// A server said that it failed.
    ServFail,
    /// No server gave a usable response.
    NoResponse,
    /// The query could not be written.
    Malformed,
    /// A referral led to no address.
    NoAddresses,
    /// Too many aliases and referrals.
    TooManySteps,
}

/// The address of a root server.
pub open spec fn root(ip: u32) -> SocketAddr {
    SocketAddr::V4 { ip, port: record::DNS_PORT }
}

/// The root servers.
pub open spec fn roots() -> Seq<SocketAddr> {
    seq![
        root(0xC629_0004),
        root(0xC709_0EC9),
        root(0xC021_040C),
        root(0xC707_5B0D),
        root(0xC0CB_E60A),
        root(0xC005_05F1),
        root(0xC070_2404),
        root(0xC661_BE35),
        root(0xC024_9411),
        root(0xC03A_801E),
        root(0xC100_0E81),
        root(0xC707_532A),
        root(0xCA0C_1B21),
    ]
}

fn root_at(ip: u32) -> (r: SocketAddr)
    ensures
        r == root(ip),
{
    SocketAddr::V4 { ip, port: record::DNS_PORT }
}

/// The root servers.
pub fn root_servers() -> (r: Vec<SocketAddr>)
    ensures
        r@ == roots(),
{
    let r: Vec<SocketAddr> = vec![
        root_at(0xC629_0004),
        root_at(0xC709_0EC9),
        root_at(0xC021_040C),
        root_at(0xC707_5B0D),
        root_at(0xC0CB_E60A),
        root_at(0xC005_05F1),
        root_at(0xC070_2404),
        root_at(0xC661_BE35),
        root_at(0xC024_9411),
        root_at(0xC03A_801E),
        root_at(0xC100_0E81),
        root_at(0xC707_532A),
        root_at(0xCA0C_1B21),
    ];
    assert(r@ =~= roots());
    r
}

/// A lookup under way.
#[derive(Debug)]
pub struct Lookup {
    /// What was asked for.
    pub name: Name,
    pub query_type: u16,
    /// How many lookups of server names this one is nested in.
    pub depth: usize,
    /// The name that is looked for now: the name asked for, or what it is an alias of.
    pub current: Name,
    /// The servers to ask, one after the other, and the one whose turn it is.
    pub servers: Vec<SocketAddr>,
    pub next: usize,
    pub round: usize,
    pub hop: usize,
    /// The records found on the way.
    pub collected: Vec<Record>,
}

/// What a [`Lookup`] stands for.
pub struct LookupView {
    pub name: Seq<Seq<u8>>,
    pub query_type: u16,
    pub depth: nat,
    pub current: Seq<Seq<u8>>,
    pub servers: Seq<SocketAddr>,
    pub next: nat,
    pub round: nat,
    pub hop: nat,
    pub collected: Seq<RecordView>,
}

impl View for Lookup {
    type V = LookupView;

    open spec fn view(&self) -> LookupView {
        LookupView {
            name: self.name@,
            query_type: self.query_type,
            depth: self.depth as nat,
            current: self.current@,
            servers: self.servers@,
            next: self.next as nat,
            round: self.round as nat,
            hop: self.hop as nat,
            collected: record::records_view(self.collected@),
        }
    }
}

impl LookupView {
    /// A lookup that has not begun yet.
    pub open spec fn fresh(name: Seq<Seq<u8>>, query_type: u16, depth: nat) -> LookupView {
        LookupView {
            name,
            query_type,
            depth,
            current: name,
            servers: roots(),
            next: 0,
            round: 0,
            hop: 0,
            collected: seq![],
        }
    }

    /// The limits are kept, and every name is one that the DNS allows.
    pub open spec fn wf(self) -> bool {
        &&& name::valid_labels(self.name)
        &&& name::valid_labels(self.current)
        &&& self.depth <= MAX_DEPTH
        &&& self.next <= self.servers.len()
        &&& self.round < MAX_ROUNDS
        &&& self.hop < MAX_HOPS
        &&& record::records_wf(self.collected)
    }

    /// The lookup asks the next server.
    pub open spec fn next_server(self) -> LookupView {
        LookupView { next: self.next + 1, ..self }
    }

    /// The lookup goes on with other servers, as a referral says.
    pub open spec fn referred(self, servers: Seq<SocketAddr>) -> StateView {
        if self.hop + 1 < MAX_HOPS {
            StateView::Ask(LookupView { servers, next: 0, hop: self.hop + 1, ..self })
        } else if self.round + 1 < MAX_ROUNDS {
            StateView::Ask(
                LookupView { servers, next: 0, hop: 0, round: self.round + 1, ..self },
            )
        } else {
            StateView::Ended(Err(LookupError::TooManySteps))
        }
    }

    /// The lookup goes on with what the name is an alias of, from the root servers.
    pub open spec fn renamed(self, record: RecordView, target: Seq<Seq<u8>>) -> StateView {
        if self.round + 1 < MAX_ROUNDS {
            StateView::Ask(
                LookupView {
                    current: target,
                    servers: roots(),
                    next: 0,
                    hop: 0,
                    round: self.round + 1,
                    collected: self.collected.push(record),
                    ..self
                },
            )
        } else {
            StateView::Ended(Err(LookupError::TooManySteps))
        }
    }
}

/// The search for the addresses of servers, name by name, IPv4 before IPv6.
#[derive(Debug)]
pub struct Gathering {
    pub names: Vec<Name>,
    pub depth: usize,
    pub index: usize,
    pub ipv6: bool,
    pub addresses: Vec<SocketAddr>,
}

/// What a [`Gathering`] stands for.
pub struct GatheringView {
    pub names: Seq<Seq<Seq<u8>>>,
    pub depth: nat,
    pub index: nat,
    pub ipv6: bool,
    pub addresses: Seq<SocketAddr>,
}

impl View for Gathering {
    type V = GatheringView;

    open spec fn view(&self) -> GatheringView {
        GatheringView {
            names: response::names_view(self.names@),
            depth: self.depth as nat,
            index: self.index as nat,
            ipv6: self.ipv6,
            addresses: self.addresses@,
        }
    }
}

/// The addresses in records of one address family.
pub open spec fn family_addresses(records: Seq<RecordView>, ipv6: bool) -> Seq<SocketAddr>
    decreases records.len(),
{
    if records.len() == 0 {
        seq![]
    } else {
        let rest = family_addresses(records.drop_last(), ipv6);
        let last = records.last().data;
        match last.server() {
            Some(address) if (last is AAAA) == ipv6 => rest.push(address),
            _ => rest,
        }
    }
}

impl GatheringView {
    /// A search that has not begun yet.
    pub open spec fn fresh(names: Seq<Seq<Seq<u8>>>, depth: nat) -> GatheringView {
        GatheringView { names, depth, index: 0, ipv6: false, addresses: seq![] }
    }

    /// How many lookups the search still has to make.
    pub open spec fn remaining(self) -> int {
        2 * (self.names.len() - self.index) - if self.ipv6 {
            1int
        } else {
            0
        }
    }

    /// The limits are kept, and every name is one that the DNS allows.
    pub open spec fn wf(self) -> bool {
        &&& response::names_wf(self.names)
        &&& self.depth <= MAX_DEPTH
        &&& self.index <= self.names.len()
        &&& self.ipv6 ==> self.index < self.names.len()
    }

    /// The next lookup of the search.
    pub open spec fn next_lookup(self) -> LookupView {
        LookupView::fresh(
            self.names[self.index as int],
            if self.ipv6 {
                record::TYPE_AAAA
            } else {
                record::TYPE_A
            },
            self.depth,
        )
    }

    /// The search after a lookup of it has ended.
    pub open spec fn absorbed(self, result: Result<Seq<RecordView>, LookupError>) -> GatheringView {
        GatheringView {
            addresses: match result {
                Ok(records) => self.addresses + family_addresses(records, self.ipv6),
                Err(_) => self.addresses,
            },
            ipv6: !self.ipv6,
            index: if self.ipv6 {
                self.index + 1
            } else {
                self.index
            },
            ..self
        }
    }
}

/// Where a lookup stands.
#[derive(Debug)]
pub enum State {
    /// It is about to begin.
    Begin(Lookup),
    /// The next server is to be asked.
    Ask(Lookup),
    /// A server was asked, under an identifier.
    Waiting(Lookup, u16),
    /// A referral came without addresses; they are searched for.
    Gather(Lookup, Gathering),
    /// It has ended.
    Ended(Result<Vec<Record>, LookupError>),
    /// It was given up because of a response that cannot be acted on.
    Abandoned,
}

/// What a [`State`] stands for.
pub enum StateView {
    Begin(LookupView),
    Ask(LookupView),
    Waiting(LookupView, u16),
    Gather(LookupView, GatheringView),
    Ended(Result<Seq<RecordView>, LookupError>),
    Abandoned,
}

/// What the result of a lookup stands for.
pub open spec fn result_view(result: Result<Vec<Record>, LookupError>) -> Result<
    Seq<RecordView>,
    LookupError,
> {
    match result {
        Ok(records) => Ok(record::records_view(records@)),
        Err(e) => Err(e),
    }
}

impl View for State {
    type V = StateView;

    open spec fn view(&self) -> StateView {
        match self {
            State::Begin(l) => StateView::Begin(l@),
            State::Ask(l) => StateView::Ask(l@),
            State::Waiting(l, id) => StateView::Waiting(l@, *id),
            State::Gather(l, g) => StateView::Gather(l@, g@),
            State::Ended(result) => StateView::Ended(result_view(*result)),
            State::Abandoned => StateView::Abandoned,
        }
    }
}

impl StateView {
    /// What the state holds is well formed.
    pub open spec fn wf(self) -> bool {
        match self {
            StateView::Begin(l) => l.wf(),
            StateView::Ask(l) => l.wf(),
            StateView::Waiting(l, _) => l.wf() && l.next < l.servers.len(),
            StateView::Gather(l, g) => l.wf() && g.wf(),
            StateView::Ended(Ok(records)) => record::records_wf(records),
            _ => true,
        }
    }
}

/// A lookup begins, with the entry that the cache gave for it: too deep a lookup ends at once, a
/// live entry is the result, otherwise servers are asked.
pub open spec fn begun(l: LookupView, entry: Option<CachedValueView>, now: Nanos) -> StateView {
    if l.depth > MAX_DEPTH {
        StateView::Ended(Err(LookupError::DepthExceeded))
    } else {
        match entry {
            None => StateView::Ask(l),
            Some(entry) => match cache::recalled(entry, now) {
                RecallView::Answers(records) => StateView::Ended(Ok(records)),
                RecallView::NXDomain => StateView::Ended(Err(LookupError::NxDomain)),
                RecallView::ServFail => StateView::Ended(Err(LookupError::ServFail)),
                RecallView::Expired => StateView::Ask(l),
            },
        }
    }
}

/// The entry that the cache gave for a lookup has expired.
pub open spec fn outlived(l: LookupView, entry: Option<CachedValueView>, now: Nanos) -> bool {
    l.depth <= MAX_DEPTH && entry is Some && cache::recalled(entry->0, now) is Expired
}

/// What a lookup does on a response, or when none came that counts.
pub open spec fn heard(l: LookupView, response: Option<MessageView>, now: Nanos) -> StateView {
    match response {
        None => StateView::Ask(l.next_server()),
        Some(m) => match response::judged(m, l.current, l.query_type) {
            VerdictView::Answer(found) => StateView::Ended(Ok(l.collected + found)),
            VerdictView::Alias { record, target } => l.renamed(record, target),
            VerdictView::EmptyAlias => StateView::Abandoned,
            VerdictView::NxDomain => StateView::Ended(Err(LookupError::NxDomain)),
            VerdictView::ServFail => StateView::Ended(Err(LookupError::ServFail)),
            VerdictView::NoData(authorities) => StateView::Ended(Ok(l.collected + authorities)),
            VerdictView::Referral { servers, addresses } => if addresses.len() > 0 {
                l.referred(addresses)
            } else if l.depth + 1 > MAX_DEPTH {
                StateView::Ended(Err(LookupError::DepthExceeded))
            } else {
                StateView::Gather(l, GatheringView::fresh(servers, l.depth + 1))
            },
        },
    }
}

/// What a response makes a lookup put in the cache.
pub open spec fn learned(l: LookupView, response: Option<MessageView>, now: Nanos) -> Option<
    CachedValueView,
> {
    match response {
        None => None,
        Some(m) => match response::judged(m, l.current, l.query_type) {
            VerdictView::Answer(found) => Some(cache::answers_entry(l.collected + found, now)),
            VerdictView::NxDomain => Some(cache::nxdomain_entry(m.authorities, now)),
            VerdictView::ServFail => Some(cache::servfail_entry(now)),
            VerdictView::NoData(authorities) => Some(
                cache::answers_entry(l.collected + authorities, now),
            ),
            _ => None,
        },
    }
}

/// The search for addresses is over: the lookup goes on with them.
pub open spec fn gathered(l: LookupView, addresses: Seq<SocketAddr>) -> StateView {
    if addresses.len() == 0 {
        StateView::Ended(Err(LookupError::NoAddresses))
    } else {
        l.referred(addresses)
    }
}

impl Lookup {
    /// A lookup that has not begun yet.
    pub fn fresh(name: Name, query_type: u16, depth: usize) -> (r: Lookup)
        ensures
            r@ == LookupView::fresh(name@, query_type, depth as nat),
    {
        let current = name.clone();
        let r = Lookup {
            name,
            query_type,
            depth,
            current,
            servers: root_servers(),
            next: 0,
            round: 0,
            hop: 0,
            collected: Vec::new(),
        };
        assert(r@.collected =~= seq![]);
        r
    }

    /// Goes on with other servers, as a referral says.
    pub fn follow_referral(self, servers: Vec<SocketAddr>) -> (r: State)
        requires
            self.round < MAX_ROUNDS,
            self.hop < MAX_HOPS,
        ensures
            r@ == self@.referred(servers@),
    {
        if self.hop + 1 < MAX_HOPS {
            State::Ask(Lookup { servers, next: 0, hop: self.hop + 1, ..self })
        } else if self.round + 1 < MAX_ROUNDS {
            State::Ask(Lookup { servers, next: 0, hop: 0, round: self.round + 1, ..self })
        } else {
            State::Ended(Err(LookupError::TooManySteps))
        }
    }

    /// Goes on with what the name is an alias of, from the root servers.
    pub fn follow_alias(self, record: Record, target: Name) -> (r: State)
        requires
            self.round < MAX_ROUNDS,
        ensures
            r@ == self@.renamed(record@, target@),
    {
        if self.round + 1 < MAX_ROUNDS {
            let ghost before = self@;
            let mut collected = self.collected;
            collected.push(record);
            assert(record::records_view(collected@) =~= before.collected.push(record@));
            State::Ask(
                Lookup {
                    current: target,
                    servers: root_servers(),
                    next: 0,
                    hop: 0,
                    round: self.round + 1,
                    collected,
                    ..self
                },
            )
        } else {
            State::Ended(Err(LookupError::TooManySteps))
        }
    }

    /// Goes on with the addresses that were searched for.
    pub fn resume(self, addresses: Vec<SocketAddr>) -> (r: State)
        requires
            self.round < MAX_ROUNDS,
            self.hop < MAX_HOPS,
        ensures
            r@ == gathered(self@, addresses@),
    {
        if addresses.len() == 0 {
            State::Ended(Err(LookupError::NoAddresses))
        } else {
            self.follow_referral(addresses)
        }
    }

    /// Begins, with the entry that the cache gave. The second result tells whether that entry has
    /// expired.
    pub fn begin(self, entry: Option<CachedValue>, now: Nanos) -> (r: (State, bool))
        ensures
            r.0@ == begun(self@, entry_view(entry), now),
            r.1 == outlived(self@, entry_view(entry), now),
    {
        if self.depth > MAX_DEPTH {
            return (State::Ended(Err(LookupError::DepthExceeded)), false);
        }
        match entry {
            None => (State::Ask(self), false),
            Some(entry) => match cache::recall(entry, now) {
                Recall::Answers(records) => (State::Ended(Ok(records)), false),
                Recall::NXDomain => (State::Ended(Err(LookupError::NxDomain)), false),
                Recall::ServFail => (State::Ended(Err(LookupError::ServFail)), false),
                Recall::Expired => (State::Ask(self), true),
            },
        }
    }

    /// Acts on a response, or on there being none that counts. The second result is for the
    /// cache.
    pub fn hear(self, response: Option<Message>, now: Nanos) -> (r: (State, Option<CachedValue>))
        requires
            self.next < self.servers.len(),
            self.depth <= MAX_DEPTH,
            self.round < MAX_ROUNDS,
            self.hop < MAX_HOPS,
            now <= cache::CLOCK_LIMIT,
        ensures
            r.0@ == heard(self@, response_view(response), now),
            entry_view(r.1) == learned(self@, response_view(response), now),
    {
        let message = match response {
            None => return (State::Ask(Lookup { next: self.next + 1, ..self }), None),
            Some(message) => message,
        };
        match response::judge(&message, &self.current, self.query_type) {
            Verdict::Answer(found) => self.end_with(found, now),
            Verdict::Alias { record, target } => (self.follow_alias(record, target), None),
            Verdict::EmptyAlias => (State::Abandoned, None),
            Verdict::NxDomain => (
                State::Ended(Err(LookupError::NxDomain)),
                Some(cache::cache_nxdomain(&message.authorities, now)),
            ),
            Verdict::ServFail => (
                State::Ended(Err(LookupError::ServFail)),
                Some(cache::cache_servfail(now)),
            ),
            Verdict::NoData(authorities) => self.end_with(authorities, now),
            Verdict::Referral { servers, addresses } => {
                if addresses.len() > 0 {
                    (self.follow_referral(addresses), None)
                } else if self.depth + 1 > MAX_DEPTH {
                    (State::Ended(Err(LookupError::DepthExceeded)), None)
                } else {
                    let depth: usize = self.depth + 1;
                    (State::Gather(self, Gathering::fresh(servers, depth)), None)
                }
            },
        }
    }

    /// Ends with what was collected and the last records.
    fn end_with(self, last: Vec<Record>, now: Nanos) -> (r: (State, Option<CachedValue>))
        requires
            now <= cache::CLOCK_LIMIT,
        ensures
            r.0@ == StateView::Ended(Ok(self@.collected + record::records_view(last@))),
            entry_view(r.1) == Some(
                cache::answers_entry(self@.collected + record::records_view(last@), now),
            ),
    {
        let ghost before = self@.collected;
        let ghost found = last@;
        let mut last = last;
        let mut collected = self.collected;
        collected.append(&mut last);
        assert(record::records_view(collected@) =~= before + record::records_view(found));
        let entry = cache::cache_answers(&collected, now);
        (State::Ended(Ok(collected)), Some(entry))
    }
}

impl Gathering {
    /// A search that has not begun yet.
    pub fn fresh(names: Vec<Name>, depth: usize) -> (r: Gathering)
        ensures
            r@ == GatheringView::fresh(response::names_view(names@), depth as nat),
    {
        Gathering { names, depth, index: 0, ipv6: false, addresses: Vec::new() }
    }

    /// The next lookup of the search.
    pub fn next_lookup(&self) -> (r: Lookup)
        requires
            self.index < self.names.len(),
        ensures
            r@ == self@.next_lookup(),
    {
        let query_type: u16 = if self.ipv6 {
            record::TYPE_AAAA
        } else {
            record::TYPE_A
        };
        assert(self@.names[self.index as int] == self.names@[self.index as int]@);
        Lookup::fresh(self.names[self.index].clone(), query_type, self.depth)
    }

    /// Takes in how a lookup of the search ended.
    pub fn absorb(self, result: Result<Vec<Record>, LookupError>) -> (r: Gathering)
        requires
            self.index < self.names.len(),
        ensures
            r@ == self@.absorbed(result_view(result)),
    {
        let Gathering { names, depth, index, ipv6, addresses } = self;
        let mut addresses = addresses;
        match result {
            Ok(records) => {
                let mut more = select_family(&records, ipv6);
                addresses.append(&mut more);
            },
            Err(_) => {},
        }
        let index: usize = if ipv6 {
            index + 1
        } else {
            index
        };
        Gathering { names, depth, index, ipv6: !ipv6, addresses }
    }
}

/// What the entry that a cache gave stands for.
pub open spec fn entry_view(entry: Option<CachedValue>) -> Option<CachedValueView> {
    match entry {
        Some(value) => Some(value@),
        None => None,
    }
}

/// What a response, or the lack of one, stands for.
pub open spec fn response_view(response: Option<Message>) -> Option<MessageView> {
    match response {
        Some(message) => Some(message@),
        None => None,
    }
}

/// The addresses in records of one address family.
fn select_family(records: &Vec<Record>, ipv6: bool) -> (r: Vec<SocketAddr>)
    ensures
        r@ == family_addresses(record::records_view(records@), ipv6),
{
    let ghost view = record::records_view(records@);
    let mut out: Vec<SocketAddr> = Vec::new();
    for i in 0..records.len()
        invariant
            view == record::records_view(records@),
            out@ == family_addresses(view.take(i as int), ipv6),
    {
        assert(view.take(i + 1).drop_last() =~= view.take(i as int));
        assert(view.take(i + 1).last() == records@[i as int]@);
        let is_ipv6 = match &records[i].data {
            RData::AAAA(_) => true,
            _ => false,
        };
        match records[i].data.server() {
            Some(address) => {
                if is_ipv6 == ipv6 {
                    out.push(address);
                }
            },
            None => {},
        }
    }
    assert(view.take(view.len() as int) =~= view);
    out
}

/// A lookup that begins well formed is well formed after.
pub proof fn lemma_begun_wf(l: LookupView, entry: Option<CachedValueView>, now: Nanos)
    requires
        l.wf(),
        entry is Some ==> entry->0.wf(),
    ensures
        begun(l, entry, now).wf(),
{
    match begun(l, entry, now) {
        StateView::Ended(Ok(records)) => {
            let kept = entry->0->records;
            assert forall|i: int| 0 <= i < records.len() implies (#[trigger] records[i]).wf() by {
                assert(kept[i].wf());
            }
        },
        _ => {},
    }
}

/// A well-formed lookup that hears a well-formed response is well formed after, and so is what it
/// learns.
pub proof fn lemma_heard_wf(l: LookupView, response: Option<MessageView>, now: Nanos)
    requires
        l.wf(),
        l.next < l.servers.len(),
        response is Some ==> response->0.wf(),
    ensures
        heard(l, response, now).wf(),
        learned(l, response, now) is Some ==> learned(l, response, now)->0.wf(),
{
    match response {
        None => {},
        Some(m) => {
            response::lemma_judged_wf(m, l.current, l.query_type);
        },
    }
}

/// A lookup keeps what it was asked for and the records found on the way, whatever it hears.
pub proof fn law_question_is_kept(l: LookupView, response: Option<MessageView>, now: Nanos)
    ensures
        ({
            let next = heard(l, response, now);
            forall|k: LookupView|
                next == StateView::Ask(k) || (next is Gather && next->Gather_0 == k) ==> {
                    &&& k.name == l.name
                    &&& k.query_type == l.query_type
                    &&& k.depth == l.depth
                    &&& l.collected.is_prefix_of(#[trigger] k.collected)
                }
        }),
        heard(l, response, now) matches StateView::Ended(Ok(records)) ==> l.collected.is_prefix_of(
            records,
        ),
{
    assert(l.collected.is_prefix_of(l.collected));
}

/// Whatever a lookup hears, it ends or gets on: to a later round, to a later hop of the round, or
/// to the next server. With the limits on rounds and hops, no lookup goes on for ever.
pub proof fn law_lookups_get_on(l: LookupView, response: Option<MessageView>, now: Nanos)
    requires
        l.wf(),
        l.next < l.servers.len(),
    ensures
        heard(l, response, now) matches StateView::Ask(k) ==> {
            ||| k.round > l.round
            ||| k.round == l.round && k.hop > l.hop
            ||| k.round == l.round && k.hop == l.hop && k.servers == l.servers && k.next > l.next
        },
{
}

/// A search gets on with every lookup of it that ends, however it ends.
pub proof fn law_searches_get_on(
    g: GatheringView,
    result: Result<Seq<RecordView>, LookupError>,
)
    requires
        g.wf(),
        g.index < g.names.len(),
    ensures
        g.absorbed(result).wf(),
        g.absorbed(result).remaining() == g.remaining() - 1,
        g.addresses.is_prefix_of(g.absorbed(result).addresses),
        result is Err ==> g.absorbed(result).addresses == g.addresses,
{
}

/// What a lookup learned answers the next lookup for the same name and type without a server, as
/// long as it has not expired: the records come back, or the failure does.
pub proof fn law_what_was_learned_answers(
    l: LookupView,
    response: MessageView,
    learned_at: Nanos,
    again: LookupView,
    now: Nanos,
)
    requires
        learned_at <= cache::CLOCK_LIMIT,
        again.depth <= MAX_DEPTH,
        learned(l, Some(response), learned_at) is Some,
        now < learned(l, Some(response), learned_at)->0.expires_at(),
    ensures
        ({
            let entry = learned(l, Some(response), learned_at);
            match heard(l, Some(response), learned_at) {
                StateView::Ended(Ok(records)) => {
                    let left = cache::seconds_left(entry->0.expires_at(), now);
                    begun(again, entry, now) == StateView::Ended(
                        Ok(records.map_values(|r: RecordView| cache::capped(r, left))),
                    )
                },
                end => begun(again, entry, now) == end,
            }
        }),
{
}

/// What a lookup learned is of no use once it has expired: servers are asked.
pub proof fn law_what_has_expired_is_asked_again(l: LookupView, entry: CachedValueView, now: Nanos)
    requires
        l.depth <= MAX_DEPTH,
        entry.expires_at() <= now,
    ensures
        begun(l, Some(entry), now) == StateView::Ask(l),
        outlived(l, Some(entry), now),
{
}

/// Only responses that settle a lookup are learned from, and all of those are.
pub proof fn law_learning(l: LookupView, response: MessageView, now: Nanos)
    ensures
        learned(l, Some(response), now) is Some <==> {
            ||| heard(l, Some(response), now) is Ended
                && heard(l, Some(response), now)->Ended_0 is Ok
            ||| heard(l, Some(response), now) == StateView::Ended(Err(LookupError::NxDomain))
            ||| heard(l, Some(response), now) == StateView::Ended(Err(LookupError::ServFail))
        },
        learned(l, None, now) is None,
{
}

/// An IPv4 address by its four numbers, at port 53.
pub open spec fn server_at(a: int, b: int, c: int, d: int) -> SocketAddr {
    SocketAddr::V4 { ip: (((a * 256 + b) * 256 + c) * 256 + d) as u32, port: 53 }
}

/// The root servers are those of the thirteen root server operators, in their order.
pub proof fn law_root_servers()
    ensures
        roots().len() == 13,
        roots()[0] == server_at(198, 41, 0, 4),
        roots()[1] == server_at(199, 9, 14, 201),
        roots()[2] == server_at(192, 33, 4, 12),
        roots()[3] == server_at(199, 7, 91, 13),
        roots()[4] == server_at(192, 203, 230, 10),
        roots()[5] == server_at(192, 5, 5, 241),
        roots()[6] == server_at(192, 112, 36, 4),
        roots()[7] == server_at(198, 97, 190, 53),
        roots()[8] == server_at(192, 36, 148, 17),
        roots()[9] == server_at(192, 58, 128, 30),
        roots()[10] == server_at(193, 0, 14, 129),
        roots()[11] == server_at(199, 7, 83, 42),
        roots()[12] == server_at(202, 12, 27, 33),
        forall|i: int, j: int|
            0 <= i < j < roots().len() ==> #[trigger] roots()[i] != #[trigger] roots()[j],
{
}

/// A lookup starts with the name it was asked for, at the first root server, with nothing found
/// yet, and so does every one that is nested no deeper than sixteen others, for any type.
pub proof fn law_lookups_start_at_the_roots(name: Seq<Seq<u8>>, query_type: u16, depth: nat)
    ensures
        ({
            let l = LookupView::fresh(name, query_type, depth);
            &&& l.name == name
            &&& l.query_type == query_type
            &&& l.depth == depth
            &&& l.current == name
            &&& l.servers == roots()
            &&& l.next == 0
            &&& l.round == 0
            &&& l.hop == 0
            &&& l.collected.len() == 0
            &&& l.wf() <==> name::valid_labels(name) && depth <= 16
        }),
        MAX_DEPTH == 16,
        MAX_ROUNDS == 16,
        MAX_HOPS == 16,
{
}

/// A lookup begins at its servers if the cache gave nothing or something that has expired, and
/// ends with what a live entry says; one that is nested too deep ends at once.
pub proof fn law_lookups_begin_with_the_cache(
    l: LookupView,
    entry: Option<CachedValueView>,
    now: Nanos,
)
    ensures
        l.depth > 16 ==> begun(l, entry, now) == StateView::Ended(Err(LookupError::DepthExceeded)),
        l.depth <= 16 ==> match entry {
            None => begun(l, entry, now) == StateView::Ask(l) && !outlived(l, entry, now),
            Some(value) => if value.expires_at() <= now {
                begun(l, entry, now) == StateView::Ask(l) && outlived(l, entry, now)
            } else {
                &&& !outlived(l, entry, now)
                &&& match value {
                    CachedValueView::Answers { records, expires_at } => {
                        begun(l, entry, now) matches StateView::Ended(Ok(back)) && {
                            &&& back.len() == records.len()
                            &&& forall|i: int|
                                0 <= i < records.len() ==> {
                                    let left = (expires_at - now) / 1_000_000_000 % 0x1_0000_0000;
                                    let (r, b) = (records[i], #[trigger] back[i]);
                                    &&& b.name == r.name
                                    &&& b.class == r.class
                                    &&& b.data == r.data
                                    &&& b.ttl <= r.ttl && b.ttl <= left
                                    &&& b.ttl == r.ttl || b.ttl == left
                                }
                        }
                    },
                    CachedValueView::NXDomain { .. } => begun(l, entry, now) == StateView::Ended(
                        Err(LookupError::NxDomain),
                    ),
                    CachedValueView::ServFail { .. } => begun(l, entry, now) == StateView::Ended(
                        Err(LookupError::ServFail),
                    ),
                }
            },
        },
{
    match entry {
        Some(value) => cache::law_entries_say_what_they_were_made_of(value, now),
        None => {},
    }
}

/// A response that holds records of the name that the lookup has come to and of the type asked
/// for ends the lookup with what was found on the way and then all of those records, in their
/// order; and that is what is kept.
pub proof fn law_lookups_end_with_all_records_asked_for(
    l: LookupView,
    m: MessageView,
    now: Nanos,
)
    requires
        response::holds_record_of(m.answers, l.current, l.query_type),
    ensures
        heard(l, Some(m), now) matches StateView::Ended(Ok(records)) && {
            let found = records.skip(l.collected.len() as int);
            &&& l.collected.is_prefix_of(records)
            &&& selection::selection(
                m.answers,
                |r: RecordView|
                    name::same_name(r.name, l.current) && r.data.record_type() == l.query_type,
                |r: RecordView| r,
                found,
            )
            &&& learned(l, Some(m), now) == Some(cache::answers_entry(records, now))
        },
{
    response::law_answers_are_all_records_asked_for(m, l.current, l.query_type);
    match heard(l, Some(m), now) {
        StateView::Ended(Ok(records)) => {
            let found = response::judged(m, l.current, l.query_type)->Answer_0;
            assert(records.skip(l.collected.len() as int) =~= found);
        },
        _ => {},
    }
}

/// A response that denies the records, by a start-of-authority record, ends the lookup with what
/// was found on the way and then the start-of-authority records, and that is what is kept.
pub proof fn law_lookups_end_with_the_denial(l: LookupView, m: MessageView, now: Nanos)
    requires
        !response::holds_record_of(m.answers, l.current, l.query_type),
        !response::holds_record_of(m.answers, l.current, 5),
        m.header.response_code != 3,
        m.header.response_code != 2,
        exists|i: int|
            0 <= i < m.authorities.len() && (#[trigger] m.authorities[i]).data.record_type() == 6,
    ensures
        heard(l, Some(m), now) matches StateView::Ended(Ok(records)) && {
            &&& l.collected.is_prefix_of(records)
            &&& selection::selection(
                m.authorities,
                |r: RecordView| r.data.record_type() == 6,
                |r: RecordView| r,
                records.skip(l.collected.len() as int),
            )
            &&& learned(l, Some(m), now) == Some(cache::answers_entry(records, now))
        },
{
    response::law_answers_are_all_records_asked_for(m, l.current, l.query_type);
    response::law_verdicts_in_their_order(m, l.current, l.query_type);
    match heard(l, Some(m), now) {
        StateView::Ended(Ok(records)) => {
            let found = response::judged(m, l.current, l.query_type)->NoData_0;
            assert(records.skip(l.collected.len() as int) =~= found);
        },
        _ => {},
    }
}

/// A response without the records, and without an alias, that says that the name does not exist
/// or that the server failed ends the lookup without records, and the failure is kept.
pub proof fn law_lookups_end_with_the_failure(l: LookupView, m: MessageView, now: Nanos)
    requires
        !response::holds_record_of(m.answers, l.current, l.query_type),
        !response::holds_record_of(m.answers, l.current, 5),
    ensures
        m.header.response_code == 3 ==> {
            &&& heard(l, Some(m), now) == StateView::Ended(Err(LookupError::NxDomain))
            &&& learned(l, Some(m), now) == Some(cache::nxdomain_entry(m.authorities, now))
        },
        m.header.response_code == 2 ==> {
            &&& heard(l, Some(m), now) == StateView::Ended(Err(LookupError::ServFail))
            &&& learned(l, Some(m), now) == Some(cache::servfail_entry(now))
        },
{
    response::law_answers_are_all_records_asked_for(m, l.current, l.query_type);
    response::law_verdicts_in_their_order(m, l.current, l.query_type);
}

/// A response with an alias of the name and without the records sends the lookup, in the next
/// round, to the root servers with the target of the first alias, which is added to what was
/// found; in the sixteenth round the lookup ends. An alias without a target cannot be acted on.
/// Nothing is kept.
pub proof fn law_lookups_go_on_with_the_alias(l: LookupView, m: MessageView, now: Nanos)
    requires
        !response::holds_record_of(m.answers, l.current, l.query_type),
        response::holds_record_of(m.answers, l.current, 5),
    ensures
        learned(l, Some(m), now) is None,
        exists|i: int|
            {
                let r = #[trigger] m.answers[i];
                &&& 0 <= i < m.answers.len()
                &&& name::same_name(r.name, l.current) && r.data.record_type() == 5
                &&& forall|j: int|
                    0 <= j < i ==> !(name::same_name((#[trigger] m.answers[j]).name, l.current)
                        && m.answers[j].data.record_type() == 5)
                &&& !(r.data is CNAME) ==> heard(l, Some(m), now) is Abandoned
                &&& r.data is CNAME && l.round >= 15 ==> heard(l, Some(m), now)
                    == StateView::Ended(Err(LookupError::TooManySteps))
                &&& r.data is CNAME && l.round < 15 ==> (heard(l, Some(m), now) matches
                    StateView::Ask(k) && {
                    &&& k.name == l.name
                    &&& k.query_type == l.query_type
                    &&& k.depth == l.depth
                    &&& k.current == r.data->CNAME_0
                    &&& k.servers == roots()
                    &&& k.next == 0
                    &&& k.round == l.round + 1
                    &&& k.hop == 0
                    &&& k.collected.len() == l.collected.len() + 1
                    &&& l.collected.is_prefix_of(k.collected)
                    &&& k.collected.last() == r
                })
            },
{
    response::law_answers_are_all_records_asked_for(m, l.current, l.query_type);
    response::law_verdicts_in_their_order(m, l.current, l.query_type);
    let v = response::judged(m, l.current, l.query_type);
    let i = choose|i: int|
        {
            let r = #[trigger] m.answers[i];
            &&& 0 <= i < m.answers.len()
            &&& name::same_name(r.name, l.current) && r.data.record_type() == 5
            &&& forall|j: int|
                0 <= j < i ==> !(name::same_name((#[trigger] m.answers[j]).name, l.current)
                    && m.answers[j].data.record_type() == 5)
            &&& v == match r.data {
                record::RDataView::CNAME(target) => VerdictView::Alias { record: r, target },
                _ => VerdictView::EmptyAlias,
            }
        };
    let r = m.answers[i];
    assert(l.collected.is_prefix_of(l.collected.push(r)));
}

/// A response comes with an address of a server that it names.
pub open spec fn brings_address(m: MessageView) -> bool {
    exists|i: int|
        {
            &&& 0 <= i < m.additionals.len()
            &&& (#[trigger] m.additionals[i]).data is A || m.additionals[i].data is AAAA
            &&& response::names_server(m.authorities, m.additionals[i].name)
        }
}

/// A response holds no records of the name and type and no alias of the name, tells of no failure
/// and denies nothing.
pub open spec fn refers(m: MessageView, name: Seq<Seq<u8>>, record_type: u16) -> bool {
    &&& !response::holds_record_of(m.answers, name, record_type)
    &&& !response::holds_record_of(m.answers, name, 5)
    &&& m.header.response_code != 3
    &&& m.header.response_code != 2
    &&& forall|i: int|
        0 <= i < m.authorities.len() ==> (#[trigger] m.authorities[i]).data.record_type() != 6
}

proof fn lemma_refers(m: MessageView, name: Seq<Seq<u8>>, record_type: u16)
    requires
        refers(m, name, record_type),
    ensures
        response::judged(m, name, record_type) is Referral,
{
    response::law_answers_are_all_records_asked_for(m, name, record_type);
    response::law_verdicts_in_their_order(m, name, record_type);
}

proof fn lemma_brings_address(m: MessageView, name: Seq<Seq<u8>>, record_type: u16)
    ensures
        response::judged(m, name, record_type) matches VerdictView::Referral { addresses, .. } ==> (
        addresses.len() > 0 <==> brings_address(m)),
{
    let v = response::judged(m, name, record_type);
    if v is Referral {
        response::law_referrals_name_every_server(m, name, record_type);
        let glue = |r: RecordView|
            (r.data is A || r.data is AAAA) && response::names_server(m.authorities, r.name);
        let address = |r: RecordView| response::address_in(r.data);
        selection::lemma_selection_holds(m.additionals, glue, address, v->addresses);
        if brings_address(m) {
            let i = choose|i: int|
                {
                    &&& 0 <= i < m.additionals.len()
                    &&& (#[trigger] m.additionals[i]).data is A || m.additionals[i].data is AAAA
                    &&& response::names_server(m.authorities, m.additionals[i].name)
                };
            assert(glue(m.additionals[i]));
        } else if v->addresses.len() > 0 {
            let i = choose|i: int|
                0 <= i < m.additionals.len() && glue(#[trigger] m.additionals[i]);
            assert(m.additionals[i].data is A || m.additionals[i].data is AAAA);
        }
    }
}

/// On a referral that brings an address of a server, the lookup goes on with the address of every
/// server that came along, in their order, in the next hop or, after the sixteenth, in the next
/// round. Nothing is kept.
pub proof fn law_lookups_go_on_with_the_referral(l: LookupView, m: MessageView, now: Nanos)
    requires
        refers(m, l.current, l.query_type),
        brings_address(m),
    ensures
        learned(l, Some(m), now) is None,
        l.hop >= 15 && l.round >= 15 ==> heard(l, Some(m), now) == StateView::Ended(
            Err(LookupError::TooManySteps),
        ),
        l.hop < 15 || l.round < 15 ==> (heard(l, Some(m), now) matches StateView::Ask(k) && {
            &&& k.name == l.name
            &&& k.query_type == l.query_type
            &&& k.depth == l.depth
            &&& k.current == l.current
            &&& k.collected == l.collected
            &&& k.next == 0
            &&& l.hop < 15 ==> k.hop == l.hop + 1 && k.round == l.round
            &&& l.hop >= 15 ==> k.hop == 0 && k.round == l.round + 1
            &&& selection::selection(
                m.additionals,
                |r: RecordView|
                    (r.data is A || r.data is AAAA) && response::names_server(
                        m.authorities,
                        r.name,
                    ),
                |r: RecordView| response::address_in(r.data),
                k.servers,
            )
        }),
{
    lemma_refers(m, l.current, l.query_type);
    lemma_brings_address(m, l.current, l.query_type);
    response::law_referrals_name_every_server(m, l.current, l.query_type);
}

/// On a referral that brings no address, the addresses of all servers that it names are searched
/// for, in their order, one level deeper, if that is not too deep. Nothing is kept.
pub proof fn law_lookups_search_for_the_servers(l: LookupView, m: MessageView, now: Nanos)
    requires
        refers(m, l.current, l.query_type),
        !brings_address(m),
    ensures
        learned(l, Some(m), now) is None,
        l.depth >= 16 ==> heard(l, Some(m), now) == StateView::Ended(
            Err(LookupError::DepthExceeded),
        ),
        l.depth < 16 ==> (heard(l, Some(m), now) matches StateView::Gather(k, g) && {
            &&& k == l
            &&& g.depth == l.depth + 1
            &&& g.index == 0
            &&& !g.ipv6
            &&& g.addresses.len() == 0
            &&& selection::selection(
                m.authorities,
                |r: RecordView| r.data is NS,
                |r: RecordView| r.data->NS_0,
                g.names,
            )
        }),
{
    lemma_refers(m, l.current, l.query_type);
    lemma_brings_address(m, l.current, l.query_type);
    response::law_referrals_name_every_server(m, l.current, l.query_type);
}

/// When no response counts, the lookup asks the next server for the same, and nothing is kept.
pub proof fn law_lookups_go_on_with_the_next_server(l: LookupView, now: Nanos)
    ensures
        learned(l, None, now) is None,
        heard(l, None, now) matches StateView::Ask(k) && {
            &&& k.next == l.next + 1
            &&& k.name == l.name
            &&& k.query_type == l.query_type
            &&& k.depth == l.depth
            &&& k.current == l.current
            &&& k.servers == l.servers
            &&& k.round == l.round
            &&& k.hop == l.hop
            &&& k.collected == l.collected
        },
{
}

/// After a search, the lookup goes on with all the addresses that were found, in their order, as
/// it does after a referral that comes with them; without an address it ends.
pub proof fn law_lookups_go_on_with_what_was_searched_for(
    l: LookupView,
    addresses: Seq<SocketAddr>,
)
    ensures
        addresses.len() == 0 ==> gathered(l, addresses) == StateView::Ended(
            Err(LookupError::NoAddresses),
        ),
        addresses.len() > 0 && l.hop >= 15 && l.round >= 15 ==> gathered(l, addresses)
            == StateView::Ended(Err(LookupError::TooManySteps)),
        addresses.len() > 0 && (l.hop < 15 || l.round < 15) ==> (gathered(l, addresses) matches
            StateView::Ask(k) && {
            &&& k.servers == addresses
            &&& k.next == 0
            &&& l.hop < 15 ==> k.hop == l.hop + 1 && k.round == l.round
            &&& l.hop >= 15 ==> k.hop == 0 && k.round == l.round + 1
            &&& k.name == l.name
            &&& k.query_type == l.query_type
            &&& k.depth == l.depth
            &&& k.current == l.current
            &&& k.collected == l.collected
        }),
{
}

/// Of the records that a search finds, the address of each that is of the family looked for is
/// taken, at port 53 and in their order.
pub proof fn law_addresses_of_a_family_are_all_taken(records: Seq<RecordView>, ipv6: bool)
    ensures
        selection::selection(
            records,
            |r: RecordView|
                if ipv6 {
                    r.data is AAAA
                } else {
                    r.data is A
                },
            |r: RecordView| response::address_in(r.data),
            family_addresses(records, ipv6),
        ),
    decreases records.len(),
{
    let keep = |r: RecordView|
        if ipv6 {
            r.data is AAAA
        } else {
            r.data is A
        };
    let give = |r: RecordView| response::address_in(r.data);
    if records.len() == 0 {
        selection::lemma_selection_empty(records, keep, give);
        assert(family_addresses(records, ipv6) =~= Seq::<SocketAddr>::empty());
    } else {
        let (rest, last) = (records.drop_last(), records.last());
        law_addresses_of_a_family_are_all_taken(rest, ipv6);
        selection::lemma_selection_push(rest, last, keep, give, family_addresses(rest, ipv6));
        assert(rest.push(last) =~= records);
    }
}

/// A search after some of its lookups have ended.
pub open spec fn searched(
    names: Seq<Seq<Seq<u8>>>,
    depth: nat,
    results: Seq<Result<Seq<RecordView>, LookupError>>,
) -> GatheringView
    decreases results.len(),
{
    if results.len() == 0 {
        GatheringView::fresh(names, depth)
    } else {
        searched(names, depth, results.drop_last()).absorbed(results.last())
    }
}

/// A search looks up every name in its order, each for IPv4 addresses and then for IPv6 addresses,
/// from the root servers; and it is over when all names have been looked up for both.
pub proof fn law_searches_look_up_every_name(
    names: Seq<Seq<Seq<u8>>>,
    depth: nat,
    results: Seq<Result<Seq<RecordView>, LookupError>>,
)
    requires
        results.len() <= 2 * names.len(),
    ensures
        ({
            let g = searched(names, depth, results);
            &&& g.names == names
            &&& g.depth == depth
            &&& g.index < names.len() <==> results.len() < 2 * names.len()
            &&& results.len() < 2 * names.len() ==> {
                &&& g.next_lookup().name == names[results.len() as int / 2]
                &&& g.next_lookup().query_type == if results.len() % 2 == 0 {
                    1u16
                } else {
                    28
                }
                &&& g.next_lookup() == LookupView::fresh(
                    g.next_lookup().name,
                    g.next_lookup().query_type,
                    depth,
                )
            }
        }),
    decreases results.len(),
{
    lemma_searched(names, depth, results);
}

proof fn lemma_searched(
    names: Seq<Seq<Seq<u8>>>,
    depth: nat,
    results: Seq<Result<Seq<RecordView>, LookupError>>,
)
    ensures
        ({
            let g = searched(names, depth, results);
            &&& g.names == names
            &&& g.depth == depth
            &&& g.ipv6 == (results.len() % 2 == 1)
            &&& 2 * g.index + if g.ipv6 {
                1int
            } else {
                0
            } == results.len()
        }),
    decreases results.len(),
{
    if results.len() > 0 {
        lemma_searched(names, depth, results.drop_last());
    }
}

/// A search ends with every address that a lookup of it gave, IPv4 addresses from the lookups for
/// those and IPv6 addresses from the others, and with no other address. Lookups that failed change
/// nothing.
pub proof fn law_searches_find_every_address(
    names: Seq<Seq<Seq<u8>>>,
    depth: nat,
    results: Seq<Result<Seq<RecordView>, LookupError>>,
    address: SocketAddr,
)
    ensures
        searched(names, depth, results).addresses.contains(address) <==> exists|k: int, i: int|
            {
                &&& 0 <= k < results.len()
                &&& #[trigger] results[k] is Ok
                &&& 0 <= i < results[k]->Ok_0.len()
                &&& if k % 2 == 0 {
                    (#[trigger] results[k]->Ok_0[i]).data is A
                } else {
                    results[k]->Ok_0[i].data is AAAA
                }
                &&& address == response::address_in(results[k]->Ok_0[i].data)
            },
    decreases results.len(),
{
    let g = searched(names, depth, results);
    if results.len() == 0 {
        assert(!g.addresses.contains(address));
    } else {
        let fewer = results.drop_last();
        let n = fewer.len() as int;
        let before = searched(names, depth, fewer);
        law_searches_find_every_address(names, depth, fewer, address);
        lemma_searched(names, depth, fewer);
        let ipv6 = n % 2 == 1;
        let keep = |r: RecordView|
            if ipv6 {
                r.data is AAAA
            } else {
                r.data is A
            };
        let give = |r: RecordView| response::address_in(r.data);
        let holds = |k: int, i: int|
            {
                &&& 0 <= k < results.len()
                &&& results[k] is Ok
                &&& 0 <= i < results[k]->Ok_0.len()
                &&& if k % 2 == 0 {
                    results[k]->Ok_0[i].data is A
                } else {
                    results[k]->Ok_0[i].data is AAAA
                }
                &&& address == response::address_in(results[k]->Ok_0[i].data)
            };
        assert(results[n] == results.last());
        if results[n] is Ok {
            let records = results[n]->Ok_0;
            let more = family_addresses(records, ipv6);
            law_addresses_of_a_family_are_all_taken(records, ipv6);
            selection::lemma_selection_holds(records, keep, give, more);
            assert(g.addresses == before.addresses + more);
            if more.contains(address) {
                let j = choose|j: int| 0 <= j < more.len() && more[j] == address;
                assert(more[j] == address);
                let i = choose|i: int|
                    0 <= i < records.len() && keep(#[trigger] records[i]) && more[j] == give(
                        records[i],
                    );
                assert(holds(n, i));
                assert(results[n]->Ok_0[i].data == records[i].data);
            }
        } else {
            assert(g.addresses == before.addresses);
        }
        if before.addresses.contains(address) {
            let (k, i) = choose|k: int, i: int|
                {
                    &&& 0 <= k < fewer.len()
                    &&& #[trigger] fewer[k] is Ok
                    &&& 0 <= i < fewer[k]->Ok_0.len()
                    &&& if k % 2 == 0 {
                        (#[trigger] fewer[k]->Ok_0[i]).data is A
                    } else {
                        fewer[k]->Ok_0[i].data is AAAA
                    }
                    &&& address == response::address_in(fewer[k]->Ok_0[i].data)
                };
            assert(results[k] == fewer[k]);
            assert(results[k]->Ok_0[i] == fewer[k]->Ok_0[i]);
            let j = choose|j: int|
                0 <= j < before.addresses.len() && before.addresses[j] == address;
            assert(g.addresses[j] == address);
        }
        if exists|k: int, i: int|
            {
                &&& 0 <= k < results.len()
                &&& #[trigger] results[k] is Ok
                &&& 0 <= i < results[k]->Ok_0.len()
                &&& if k % 2 == 0 {
                    (#[trigger] results[k]->Ok_0[i]).data is A
                } else {
                    results[k]->Ok_0[i].data is AAAA
                }
                &&& address == response::address_in(results[k]->Ok_0[i].data)
            } {
            let (k, i) = choose|k: int, i: int|
                {
                    &&& 0 <= k < results.len()
                    &&& #[trigger] results[k] is Ok
                    &&& 0 <= i < results[k]->Ok_0.len()
                    &&& if k % 2 == 0 {
                        (#[trigger] results[k]->Ok_0[i]).data is A
                    } else {
                        results[k]->Ok_0[i].data is AAAA
                    }
                    &&& address == response::address_in(results[k]->Ok_0[i].data)
                };
            if k < n {
                assert(fewer[k] == results[k]);
                assert(fewer[k]->Ok_0[i] == results[k]->Ok_0[i]);
                let j = choose|j: int|
                    0 <= j < before.addresses.len() && before.addresses[j] == address;
                assert(g.addresses[j] == address);
            } else {
                let records = results[n]->Ok_0;
                let more = family_addresses(records, ipv6);
                assert(keep(records[i]));
                assert(more.contains(give(records[i])));
                let j = choose|j: int| 0 <= j < more.len() && more[j] == address;
                assert(g.addresses[before.addresses.len() + j] == address);
            }
        } else {
            assert(!(results[n] is Ok && family_addresses(results[n]->Ok_0, ipv6).contains(
                address,
            )));
            if g.addresses.contains(address) {
                let j = choose|j: int| 0 <= j < g.addresses.len() && g.addresses[j] == address;
                if j < before.addresses.len() {
                    assert(before.addresses[j] == address);
                } else {
                    let more = family_addresses(results[n]->Ok_0, ipv6);
                    assert(more[j - before.addresses.len()] == address);
                }
            }
        }
    }
}

/// What lookups and searches stand for leaves nothing of them out.
pub proof fn law_views_of_lookups_leave_nothing_out(l: Lookup, g: Gathering)
    ensures
        l@.name == l.name@,
        l@.query_type == l.query_type,
        l@.depth == l.depth,
        l@.current == l.current@,
        l@.servers == l.servers@,
        l@.next == l.next,
        l@.round == l.round,
        l@.hop == l.hop,
        l@.collected == record::records_view(l.collected@),
        g@.names.len() == g.names@.len(),
        forall|i: int| 0 <= i < g.names@.len() ==> #[trigger] g@.names[i] == g.names@[i]@,
        g@.depth == g.depth,
        g@.index == g.index,
        g@.ipv6 == g.ipv6,
        g@.addresses == g.addresses@,
{
}

/// What the states, results, entries and responses of a lookup stand for leaves nothing of them
/// out.
pub proof fn law_views_of_states_leave_nothing_out(
    state: State,
    result: Result<Vec<Record>, LookupError>,
    entry: Option<CachedValue>,
    response: Option<Message>,
)
    ensures
        match state {
            State::Begin(l) => state@ == StateView::Begin(l@),
            State::Ask(l) => state@ == StateView::Ask(l@),
            State::Waiting(l, id) => state@ == StateView::Waiting(l@, id),
            State::Gather(l, g) => state@ == StateView::Gather(l@, g@),
            State::Ended(end) => state@ == StateView::Ended(result_view(end)),
            State::Abandoned => state@ is Abandoned,
        },
        match result {
            Ok(records) => result_view(result) == Ok::<Seq<RecordView>, LookupError>(
                record::records_view(records@),
            ),
            Err(e) => result_view(result) == Err::<Seq<RecordView>, LookupError>(e),
        },
        entry is Some <==> entry_view(entry) is Some,
        entry is Some ==> entry_view(entry)->0 == entry->0@,
        response is Some <==> response_view(response) is Some,
        response is Some ==> response_view(response)->0 == response->0@,
{
}

} // verus!
