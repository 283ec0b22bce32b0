//! Resolution from the root servers down.
use crate::cache;
use crate::cache::{CachedValueView, LookupCache, Nanos};
use crate::cache_util;
use crate::message;
use crate::message::{Header, Message, MessageView, WireError};
use crate::name::Name;
use crate::record;
use crate::record::{Query, QueryView, Record, RecordView, SocketAddr};
use crate::resolver::lookup;
use crate::resolver::lookup::{
    Gathering, GatheringView, Lookup, LookupError, LookupView, State, StateView,
};
use crate::resolver::response;
use crate::resolver::types::{OutcomeView, ResolutionOutcome, ResolutionStatus};
use rand::Rng;
use vstd::prelude::*;

verus! {

/// The query for records of a type: one question, of the Internet class, that asks for no
/// recursion.
pub open spec fn query_message(name: Seq<Seq<u8>>, query_type: u16, id: u16) -> MessageView {
    MessageView {
        header: Header {
            id,
            response: false,
            op_code: message::OP_QUERY,
            authoritative: false,
            truncation: false,
            recursion_desired: false,
            recursion_available: false,
            authentic_data: false,
            checking_disabled: false,
            response_code: message::NO_ERROR,
        },
        queries: seq![QueryView { name, query_type, query_class: record::CLASS_IN }],
        answers: seq![],
        authorities: seq![],
        additionals: seq![],
        edns: None,
    }
}

/// The octets of the query for records of a type.
pub fn build_query(name: Name, query_type: u16, id: u16) -> (r: Result<Vec<u8>, WireError>)
    requires
        name.wf(),
    ensures
        r is Ok,
        encoded_query(name@, query_type, id) == Some(r->Ok_0@),
        message::decoded(r->Ok_0@) == Some(query_message(name@, query_type, id)),
        query_message(name@, query_type, id).heads(r->Ok_0@),
{
    let header = Header {
        id,
        response: false,
        op_code: message::OP_QUERY,
        authoritative: false,
        truncation: false,
        recursion_desired: false,
        recursion_available: false,
        authentic_data: false,
        checking_disabled: false,
        response_code: message::NO_ERROR,
    };
    let query = Query { name, query_type, query_class: record::CLASS_IN };
    let ghost asked = query@;
    let message = Message {
        header,
        queries: vec![query],
        answers: Vec::new(),
        authorities: Vec::new(),
        additionals: Vec::new(),
        edns: None,
    };
    proof {
        let expected = query_message(asked.name, query_type, id);
        assert(message@.queries =~= expected.queries);
        assert(message@.answers =~= expected.answers);
        assert(message@.authorities =~= expected.authorities);
        assert(message@.additionals =~= expected.additionals);
        assert(message@ == expected);
        assert(message@.wf());
        assert(message@.small());
    }
    message::encode(message)
}

/// The octets of the query for records of a type, if it has a wire form.
pub open spec fn encoded_query(name: Seq<Seq<u8>>, query_type: u16, id: u16) -> Option<Seq<u8>> {
    message::encoded(query_message(name, query_type, id))
}

/// An identifier for a query: `rand`'s `Rng::gen` on the generator of the thread. Any value may
/// come.
#[verifier::external_body]
fn random_id() -> (r: u16) {
    rand::thread_rng().gen()
}

/// The response that counts among what came back for a query with this identifier: a message
/// with the same identifier.
pub open spec fn accepted(reply: Option<Seq<u8>>, id: u16) -> Option<MessageView> {
    match reply {
        None => None,
        Some(octets) => match message::decoded(octets) {
            None => None,
            Some(m) => if m.header.id == id {
                Some(m)
            } else {
                None
            },
        },
    }
}

/// What came back for a query.
pub open spec fn reply_view(reply: Option<Vec<u8>>) -> Option<Seq<u8>> {
    match reply {
        Some(octets) => Some(octets@),
        None => None,
    }
}

/// The response that counts among what came back for a query with this identifier.
pub fn accept_reply(reply: Option<Vec<u8>>, id: u16) -> (r: Option<Message>)
    ensures
        lookup::response_view(r) == accepted(reply_view(reply), id),
        r is Some ==> r->0@.wf(),
{
    let octets = match reply {
        None => return None,
        Some(octets) => octets,
    };
    match message::decode(octets.as_slice()) {
        Ok(m) => {
            if m.header.id == id {
                Some(m)
            } else {
                None
            }
        },
        Err(_) => None,
    }
}

/// A lookup that waits for the addresses of the servers it was referred to.
#[derive(Debug)]
pub struct Suspended {
    pub lookup: Lookup,
    pub gathering: Gathering,
}

/// What a [`Suspended`] stands for.
pub struct SuspendedView {
    pub lookup: LookupView,
    pub gathering: GatheringView,
}

impl View for Suspended {
    type V = SuspendedView;

    open spec fn view(&self) -> SuspendedView {
        SuspendedView { lookup: self.lookup@, gathering: self.gathering@ }
    }
}

/// The resolution of one question from the root servers down, between two exchanges with a
/// server.
#[derive(Debug)]
pub struct IterativeResolver {
    state: State,
    suspended: Vec<Suspended>,
}

/// What an [`IterativeResolver`] stands for: where the innermost lookup stands, and the lookups
/// that wait for it, the outermost first.
pub struct ResolverView {
    pub state: StateView,
    pub suspended: Seq<SuspendedView>,
}

/// What a list of suspended lookups stands for.
pub open spec fn suspended_view(suspended: Seq<Suspended>) -> Seq<SuspendedView> {
    suspended.map_values(|s: Suspended| s@)
}

impl View for IterativeResolver {
    type V = ResolverView;

    closed spec fn view(&self) -> ResolverView {
        ResolverView { state: self.state@, suspended: suspended_view(self.suspended@) }
    }
}

impl ResolverView {
    /// A resolution that has not begun yet.
    pub open spec fn fresh(name: Seq<Seq<u8>>, query_type: u16) -> ResolverView {
        ResolverView {
            state: StateView::Begin(LookupView::fresh(name, query_type, 0)),
            suspended: seq![],
        }
    }

    /// Nothing is left to do before a server has been heard, or at all.
    pub open spec fn settled(self) -> bool {
        match self.state {
            StateView::Waiting(_, _) => true,
            StateView::Abandoned => true,
            StateView::Ended(_) => self.suspended.len() == 0,
            _ => false,
        }
    }

    /// The lookups are well formed, and each is nested one deeper than the one it works for.
    pub open spec fn wf(self) -> bool {
        &&& self.state.wf()
        &&& match self.state {
            StateView::Begin(l) => l.depth == self.suspended.len(),
            StateView::Ask(l) => l.depth == self.suspended.len(),
            StateView::Waiting(l, _) => l.depth == self.suspended.len(),
            StateView::Gather(l, g) => l.depth == self.suspended.len() && g.depth == l.depth + 1,
            _ => true,
        }
        &&& forall|i: int| 0 <= i < self.suspended.len() ==> suspended_wf(
            #[trigger] self.suspended[i],
            i,
        )
    }
}

/// A suspended lookup is well formed, nested so deep, and has a search under way.
pub open spec fn suspended_wf(s: SuspendedView, depth: int) -> bool {
    &&& s.lookup.wf()
    &&& s.lookup.depth == depth
    &&& s.gathering.wf()
    &&& s.gathering.depth == depth + 1
    &&& s.gathering.index < s.gathering.names.len()
}

/// A resolution and the cache that it reads and fills.
pub struct Situation {
    pub resolver: ResolverView,
    pub cache: Map<Seq<char>, CachedValueView>,
}

impl Situation {
    /// The names and numbers kept are within their limits.
    pub open spec fn wf(self) -> bool {
        self.resolver.wf() && cache::entries_wf(self.cache)
    }
}

/// The key of a lookup in the cache.
pub open spec fn key_of(l: LookupView) -> Seq<char> {
    cache_util::cache_key(l.name, l.query_type)
}

/// A lookup asks the server whose turn it is, or ends when every server has had its turn.
pub open spec fn asked(l: LookupView, id: u16) -> StateView {
    if l.next < l.servers.len() {
        match encoded_query(l.current, l.query_type, id) {
            Some(_) => StateView::Waiting(l, id),
            None => StateView::Ended(Err(LookupError::Malformed)),
        }
    } else {
        StateView::Ended(Err(LookupError::NoResponse))
    }
}

/// One step of a resolution that needs no server: `entry` is what the cache gave, where the step
/// asks it.
pub open spec fn stepped(
    s: Situation,
    entry: Option<CachedValueView>,
    now: Nanos,
    id: u16,
) -> Situation {
    let suspended = s.resolver.suspended;
    match s.resolver.state {
        StateView::Begin(l) => Situation {
            resolver: ResolverView { state: lookup::begun(l, entry, now), suspended },
            cache: if lookup::outlived(l, entry, now) {
                s.cache.remove(key_of(l))
            } else {
                s.cache
            },
        },
        StateView::Ask(l) => Situation {
            resolver: ResolverView { state: asked(l, id), suspended },
            cache: s.cache,
        },
        StateView::Gather(l, g) => Situation {
            resolver: if g.index < g.names.len() {
                ResolverView {
                    state: StateView::Begin(g.next_lookup()),
                    suspended: suspended.push(SuspendedView { lookup: l, gathering: g }),
                }
            } else {
                ResolverView { state: lookup::gathered(l, g.addresses), suspended }
            },
            cache: s.cache,
        },
        StateView::Ended(result) => if suspended.len() > 0 {
            let last = suspended.last();
            Situation {
                resolver: ResolverView {
                    state: StateView::Gather(last.lookup, last.gathering.absorbed(result)),
                    suspended: suspended.drop_last(),
                },
                cache: s.cache,
            }
        } else {
            s
        },
        _ => s,
    }
}

/// The cache may give `entry` to the next step: what it holds for the lookup that begins, or
/// nothing. Other steps do not ask it.
pub open spec fn may_give(s: Situation, entry: Option<CachedValueView>) -> bool {
    match entry {
        None => true,
        Some(value) => match s.resolver.state {
            StateView::Begin(l) => s.cache.contains_key(key_of(l)) && s.cache[key_of(l)] == value,
            _ => false,
        },
    }
}

/// A resolution after as many steps as there are answers of the cache.
pub open spec fn ran(
    s: Situation,
    entries: Seq<Option<CachedValueView>>,
    now: Nanos,
    id: u16,
) -> Situation
    decreases entries.len(),
{
    if entries.len() == 0 {
        s
    } else {
        stepped(ran(s, entries.drop_last(), now, id), entries.last(), now, id)
    }
}

/// The cache may have given these entries to the steps of a resolution, none of which came after
/// it had settled.
pub open spec fn may_run(
    s: Situation,
    entries: Seq<Option<CachedValueView>>,
    now: Nanos,
    id: u16,
) -> bool
    decreases entries.len(),
{
    entries.len() == 0 || {
        let before = ran(s, entries.drop_last(), now, id);
        &&& may_run(s, entries.drop_last(), now, id)
        &&& !before.resolver.settled()
        &&& may_give(before, entries.last())
    }
}

/// A resolution settles: one of the ways in which it can, since the cache may forget entries.
pub open spec fn settles(s: Situation, end: Situation, now: Nanos, id: u16) -> bool {
    &&& end.resolver.settled()
    &&& exists|entries: Seq<Option<CachedValueView>>| #[trigger]
        may_run(s, entries, now, id) && end == ran(s, entries, now, id)
}

/// What the cache holds for the next step: the entry under the key of the lookup that begins.
/// Other steps do not ask it.
pub open spec fn held(s: Situation) -> Option<CachedValueView> {
    match s.resolver.state {
        StateView::Begin(l) => if s.cache.contains_key(key_of(l)) {
            Some(s.cache[key_of(l)])
        } else {
            None
        },
        _ => None,
    }
}

/// The cache gave each step of a resolution what it held.
pub open spec fn gave_all(
    s: Situation,
    entries: Seq<Option<CachedValueView>>,
    now: Nanos,
    id: u16,
) -> bool
    decreases entries.len(),
{
    entries.len() == 0 || {
        &&& gave_all(s, entries.drop_last(), now, id)
        &&& entries.last() == held(ran(s, entries.drop_last(), now, id))
    }
}

/// A resolution settles with a cache that has forgotten nothing: the one way in which it can.
pub open spec fn settles_whole(s: Situation, end: Situation, now: Nanos, id: u16) -> bool {
    &&& end.resolver.settled()
    &&& exists|entries: Seq<Option<CachedValueView>>| #[trigger]
        may_run(s, entries, now, id) && gave_all(s, entries, now, id) && end == ran(
            s,
            entries,
            now,
            id,
        )
}

/// A resolution after it has heard from the server that it asked. One that has not asked yet
/// goes on as it is.
pub open spec fn received(s: Situation, reply: Option<Seq<u8>>, now: Nanos) -> Situation {
    match s.resolver.state {
        StateView::Waiting(l, id) => {
            let response = accepted(reply, id);
            Situation {
                resolver: ResolverView {
                    state: lookup::heard(l, response, now),
                    suspended: s.resolver.suspended,
                },
                cache: match lookup::learned(l, response, now) {
                    Some(value) => s.cache.insert(key_of(l), value),
                    None => s.cache,
                },
            }
        },
        _ => s,
    }
}

/// How much is left to do for the searches of suspended lookups.
spec fn searches_left(suspended: Seq<SuspendedView>) -> int
    decreases suspended.len(),
{
    if suspended.len() == 0 {
        0
    } else {
        searches_left(suspended.drop_last()) + 4 * suspended.last().gathering.remaining()
    }
}

/// How much is left to do before a resolution settles.
spec fn steps_left(r: ResolverView) -> int {
    searches_left(r.suspended) + match r.state {
        StateView::Begin(_) => 4int,
        StateView::Ask(_) => 3,
        StateView::Gather(_, g) => 5 + 4 * g.remaining(),
        StateView::Ended(_) => 2,
        _ => 0,
    }
}

proof fn lemma_searches_left(suspended: Seq<SuspendedView>)
    requires
        forall|i: int| 0 <= i < suspended.len() ==> suspended_wf(#[trigger] suspended[i], i),
    ensures
        searches_left(suspended) >= 0,
    decreases suspended.len(),
{
    if suspended.len() > 0 {
        assert forall|i: int| 0 <= i < suspended.drop_last().len() implies suspended_wf(
            #[trigger] suspended.drop_last()[i],
            i,
        ) by {
            assert(suspended_wf(suspended[i], i));
        }
        lemma_searches_left(suspended.drop_last());
        assert(suspended_wf(suspended[suspended.len() - 1], suspended.len() - 1));
    }
}

/// A step keeps a situation well formed and leaves less to do.
proof fn lemma_stepped(s: Situation, entry: Option<CachedValueView>, now: Nanos, id: u16)
    requires
        s.wf(),
        !s.resolver.settled(),
        may_give(s, entry),
    ensures
        stepped(s, entry, now, id).wf(),
        0 <= steps_left(stepped(s, entry, now, id).resolver) < steps_left(s.resolver),
{
    let suspended = s.resolver.suspended;
    let t = stepped(s, entry, now, id);
    lemma_searches_left(suspended);
    match s.resolver.state {
        StateView::Begin(l) => {
            lookup::lemma_begun_wf(l, entry, now);
        },
        StateView::Ask(_) => {},
        StateView::Gather(l, g) => {
            if g.index < g.names.len() {
                assert(t.resolver.suspended.drop_last() =~= suspended);
                assert forall|i: int| 0 <= i < t.resolver.suspended.len() implies suspended_wf(
                    #[trigger] t.resolver.suspended[i],
                    i,
                ) by {
                    if i < suspended.len() {
                        assert(suspended_wf(suspended[i], i));
                    }
                }
            }
        },
        StateView::Ended(_) => {
            assert(suspended_wf(suspended[suspended.len() - 1], suspended.len() - 1));
            assert forall|i: int| 0 <= i < t.resolver.suspended.len() implies suspended_wf(
                #[trigger] t.resolver.suspended[i],
                i,
            ) by {
                assert(suspended_wf(suspended[i], i));
            }
            lemma_searches_left(t.resolver.suspended);
        },
        _ => {},
    }
}

/// Hearing from a server keeps a situation well formed.
proof fn lemma_received_wf(s: Situation, reply: Option<Seq<u8>>, now: Nanos)
    requires
        s.wf(),
        s.resolver.state matches StateView::Waiting(_, id) ==> (accepted(reply, id) matches Some(m)
            ==> m.wf()),
    ensures
        received(s, reply, now).wf(),
{
    match s.resolver.state {
        StateView::Waiting(l, id) => {
            lookup::lemma_heard_wf(l, accepted(reply, id), now);
        },
        _ => {},
    }
}

/// What became of a resolution.
#[derive(Debug)]
pub enum Progress {
    /// A server is to be asked; the resolution goes on with what comes back.
    Exchange { resolver: IterativeResolver, request: Vec<u8>, server: SocketAddr },
    /// The question has been resolved, one way or the other.
    Done(ResolutionOutcome),
    /// The resolution was given up because of a response that cannot be acted on.
    Abandoned,
}

/// The status for a lookup that gave no records.
pub open spec fn status_of(e: LookupError) -> ResolutionStatus {
    match e {
        LookupError::NoResponse => ResolutionStatus::Timeout,
        LookupError::Malformed => ResolutionStatus::Malformed,
        LookupError::NxDomain => ResolutionStatus::NxDomain,
        _ => ResolutionStatus::ServFail,
    }
}

/// The outcome of a resolution whose lookup ended so: start-of-authority records go to the
/// authorities, other records to the answers.
pub open spec fn concluded(result: Result<Seq<RecordView>, LookupError>) -> OutcomeView {
    match result {
        Ok(records) => OutcomeView {
            status: ResolutionStatus::NoError,
            answers: records.filter(|r: RecordView| r.data.record_type() != record::TYPE_SOA),
            authorities: records.filter(|r: RecordView| r.data.record_type() == record::TYPE_SOA),
        },
        Err(e) => OutcomeView::failed(status_of(e)),
    }
}

/// The outcome of a resolution whose lookup ended so.
pub fn conclude(result: Result<Vec<Record>, LookupError>) -> (r: ResolutionOutcome)
    ensures
        r@ == concluded(lookup::result_view(result)),
{
    match result {
        Ok(records) => {
            let ghost view = record::records_view(records@);
            let ghost other = |r: RecordView| r.data.record_type() != record::TYPE_SOA;
            let ghost authority = |r: RecordView| r.data.record_type() == record::TYPE_SOA;
            let mut answers: Vec<Record> = Vec::new();
            let mut authorities: Vec<Record> = Vec::new();
            proof {
                reveal(Seq::filter);
                assert(record::records_view(answers@) =~= view.take(0).filter(other));
                assert(record::records_view(authorities@) =~= view.take(0).filter(authority));
            }
            for i in 0..records.len()
                invariant
                    view == record::records_view(records@),
                    other == (|r: RecordView| r.data.record_type() != record::TYPE_SOA),
                    authority == (|r: RecordView| r.data.record_type() == record::TYPE_SOA),
                    record::records_view(answers@) == view.take(i as int).filter(other),
                    record::records_view(authorities@) == view.take(i as int).filter(authority),
            {
                let copy = records[i].clone();
                proof {
                    assert(view.take(i + 1) =~= view.take(i as int).push(copy@));
                    response::lemma_filter_push(view.take(i as int), copy@, other);
                    response::lemma_filter_push(view.take(i as int), copy@, authority);
                }
                if copy.data.record_type() == record::TYPE_SOA {
                    let ghost before = authorities@;
                    authorities.push(copy);
                    assert(record::records_view(authorities@) =~= record::records_view(before).push(
                        copy@,
                    ));
                } else {
                    let ghost before = answers@;
                    answers.push(copy);
                    assert(record::records_view(answers@) =~= record::records_view(before).push(
                        copy@,
                    ));
                }
            }
            assert(view.take(view.len() as int) =~= view);
            ResolutionOutcome::noerror(answers, authorities)
        },
        Err(e) => {
            let status = match e {
                LookupError::NoResponse => ResolutionStatus::Timeout,
                LookupError::Malformed => ResolutionStatus::Malformed,
                LookupError::NxDomain => ResolutionStatus::NxDomain,
                _ => ResolutionStatus::ServFail,
            };
            let r = ResolutionOutcome::with_status(status, Vec::new());
            assert(r@.authorities =~= seq![]);
            r
        },
    }
}

/// A resolution waits for a server's response to a request: the query for the name that its
/// innermost lookup has come to.
pub open spec fn sends(r: ResolverView, request: Seq<u8>, server: SocketAddr) -> bool {
    match r.state {
        StateView::Waiting(l, id) => {
            &&& encoded_query(l.current, l.query_type, id) == Some(request)
            &&& message::decoded(request) == Some(query_message(l.current, l.query_type, id))
            &&& server == l.servers[l.next as int]
        },
        _ => false,
    }
}

/// What is handed out when a resolution has settled.
pub open spec fn reached(end: ResolverView, progress: Progress) -> bool {
    match progress {
        Progress::Exchange { resolver, request, server } => {
            &&& resolver@ == end
            &&& sends(end, request@, server)
        },
        Progress::Done(outcome) => {
            &&& end.suspended.len() == 0
            &&& end.state is Ended
            &&& outcome@ == concluded(end.state->Ended_0)
        },
        Progress::Abandoned => end.state is Abandoned,
    }
}

/// A resolution that has heard `reply` goes on until it has settled, hands out `progress` and
/// leaves these entries in the cache.
pub open spec fn resumes(
    s: Situation,
    reply: Option<Seq<u8>>,
    progress: Progress,
    entries: Map<Seq<char>, CachedValueView>,
    now: Nanos,
    id: u16,
) -> bool {
    exists|end: ResolverView|
        {
            &&& #[trigger] settles(
                received(s, reply, now),
                Situation { resolver: end, cache: entries },
                now,
                id,
            )
            &&& reached(end, progress)
        }
}

/// A resolution goes on as in [`resumes`], and the cache gives it all that it holds.
pub open spec fn resumes_whole(
    s: Situation,
    reply: Option<Seq<u8>>,
    progress: Progress,
    entries: Map<Seq<char>, CachedValueView>,
    now: Nanos,
    id: u16,
) -> bool {
    exists|end: ResolverView|
        {
            &&& #[trigger] settles_whole(
                received(s, reply, now),
                Situation { resolver: end, cache: entries },
                now,
                id,
            )
            &&& reached(end, progress)
        }
}

/// The cache has forgotten nothing and has room for what is learned from a reply.
pub open spec fn stays_whole(
    cache: LookupCache,
    resolver: ResolverView,
    reply: Option<Seq<u8>>,
    now: Nanos,
) -> bool {
    let after = received(Situation { resolver, cache: cache@ }, reply, now).cache;
    cache.whole() && after.dom().len() <= cache.limit()
}

/// Whether nothing is left to do before a server has been heard, or at all.
fn is_settled(state: &State, suspended: usize) -> (r: bool)
    ensures
        r == match state@ {
            StateView::Waiting(_, _) => true,
            StateView::Abandoned => true,
            StateView::Ended(_) => suspended == 0,
            _ => false,
        },
{
    match state {
        State::Waiting(_, _) => true,
        State::Abandoned => true,
        State::Ended(_) => suspended == 0,
        _ => false,
    }
}

impl IterativeResolver {
    /// The resolution of a question, not begun yet.
    pub fn new(question: &Query) -> (r: Self)
        ensures
            r@ == ResolverView::fresh(question.name@, question.query_type),
    {
        let lookup = Lookup::fresh(question.name.clone(), question.query_type, 0);
        let r = IterativeResolver { state: State::Begin(lookup), suspended: Vec::new() };
        assert(r@.suspended =~= seq![]);
        r
    }

    /// Goes on until a server is to be asked or the resolution has ended. `reply` is what the
    /// server that was asked last sent, `None` if nothing came; the next request, if there is
    /// one, bears the identifier `id`. Lookups that begin on the way use what the cache gives; one
    /// that has forgotten nothing gives all that it holds.
    pub fn resume_with(
        self,
        reply: Option<Vec<u8>>,
        cache: &mut LookupCache,
        now: Nanos,
        id: u16,
    ) -> (r: Progress)
        requires
            self@.wf(),
            cache::entries_wf(old(cache)@),
            now <= cache::CLOCK_LIMIT,
        ensures
            resumes(
                Situation { resolver: self@, cache: old(cache)@ },
                reply_view(reply),
                r,
                final(cache)@,
                now,
                id,
            ),
            stays_whole(*old(cache), self@, reply_view(reply), now) ==> {
                &&& final(cache).whole()
                &&& resumes_whole(
                    Situation { resolver: self@, cache: old(cache)@ },
                    reply_view(reply),
                    r,
                    final(cache)@,
                    now,
                    id,
                )
            },
            final(cache).limit() == old(cache).limit(),
            r matches Progress::Exchange { resolver, .. } ==> resolver@.wf(),
            r matches Progress::Done(outcome) ==> outcome@.wf(),
            cache::entries_wf(final(cache)@),
    {
        let ghost before = Situation { resolver: self@, cache: cache@ };
        let ghost start = received(before, reply_view(reply), now);
        let ghost keeps_all = stays_whole(*cache, self@, reply_view(reply), now);
        let mut suspended = self.suspended;
        let mut state = match self.state {
            State::Waiting(lookup, asked_id) => {
                let key = cache_util::make_cache_key(&lookup.name, lookup.query_type);
                let response = accept_reply(reply, asked_id);
                let (state, entry) = lookup.hear(response, now);
                match entry {
                    Some(value) => cache.insert(key, value),
                    None => {},
                }
                state
            },
            state => state,
        };
        proof {
            lemma_received_wf(before, reply_view(reply), now);
        }
        let ghost mut entries: Seq<Option<CachedValueView>> = seq![];
        let mut request: Vec<u8> = Vec::new();
        assert(start == Situation {
            resolver: ResolverView { state: state@, suspended: suspended_view(suspended@) },
            cache: cache@,
        });
        while !is_settled(&state, suspended.len())
            invariant
                now <= cache::CLOCK_LIMIT,
                may_run(start, entries, now, id),
                ran(start, entries, now, id) == (Situation {
                    resolver: ResolverView { state: state@, suspended: suspended_view(suspended@) },
                    cache: cache@,
                }),
                ran(start, entries, now, id).wf(),
                cache.limit() == old(cache).limit(),
                keeps_all ==> cache.whole(),
                keeps_all ==> gave_all(start, entries, now, id),
                state@ matches StateView::Waiting(l, asked_id) ==> {
                    &&& encoded_query(l.current, l.query_type, asked_id) == Some(request@)
                    &&& message::decoded(request@) == Some(
                        query_message(l.current, l.query_type, asked_id),
                    )
                },
            decreases steps_left(ran(start, entries, now, id).resolver),
        {
            let ghost here = ran(start, entries, now, id);
            let ghost mut given: Option<CachedValueView> = None;
            state = match state {
                State::Begin(lookup) => {
                    let key = cache_util::make_cache_key(&lookup.name, lookup.query_type);
                    let entry = cache.get(&key);
                    proof {
                        given = lookup::entry_view(entry);
                    }
                    let (next, expired) = lookup.begin(entry, now);
                    if expired {
                        cache.invalidate(&key);
                    }
                    next
                },
                State::Ask(lookup) => {
                    if lookup.next < lookup.servers.len() {
                        match build_query(lookup.current.clone(), lookup.query_type, id) {
                            Ok(octets) => {
                                request = octets;
                                State::Waiting(lookup, id)
                            },
                            Err(_) => State::Ended(Err(LookupError::Malformed)),
                        }
                    } else {
                        State::Ended(Err(LookupError::NoResponse))
                    }
                },
                State::Gather(lookup, gathering) => {
                    if gathering.index < gathering.names.len() {
                        let next = gathering.next_lookup();
                        let ghost before = suspended@;
                        suspended.push(Suspended { lookup, gathering });
                        assert(suspended_view(suspended@) =~= suspended_view(before).push(
                            SuspendedView { lookup: lookup@, gathering: gathering@ },
                        ));
                        State::Begin(next)
                    } else {
                        lookup.resume(gathering.addresses)
                    }
                },
                State::Ended(result) => {
                    let ghost before = suspended@;
                    match suspended.pop() {
                        Some(last) => {
                            assert(suspended_view(suspended@) =~= suspended_view(
                                before,
                            ).drop_last());
                            assert(suspended_view(before).last() == last@);
                            assert(suspended_wf(
                                suspended_view(before)[before.len() - 1],
                                before.len() - 1,
                            ));
                            State::Gather(last.lookup, last.gathering.absorb(result))
                        },
                        None => State::Ended(result),
                    }
                },
                state => state,
            };
            proof {
                lemma_stepped(here, given, now, id);
                let longer = entries.push(given);
                assert(longer.drop_last() =~= entries);
                entries = longer;
            }
        }
        let ghost end = ResolverView { state: state@, suspended: suspended_view(suspended@) };
        assert(settles(start, Situation { resolver: end, cache: cache@ }, now, id));
        assert(keeps_all ==> settles_whole(
            start,
            Situation { resolver: end, cache: cache@ },
            now,
            id,
        ));
        match state {
            State::Waiting(lookup, asked_id) => {
                let server = lookup.servers[lookup.next];
                let resolver = IterativeResolver {
                    state: State::Waiting(lookup, asked_id),
                    suspended,
                };
                assert(resolver@ == end);
                Progress::Exchange { resolver, request, server }
            },
            State::Ended(result) => {
                proof {
                    match lookup::result_view(result) {
                        Ok(records) => {
                            response::lemma_filter_wf(
                                records,
                                |r: RecordView| r.data.record_type() != record::TYPE_SOA,
                            );
                            response::lemma_filter_wf(
                                records,
                                |r: RecordView| r.data.record_type() == record::TYPE_SOA,
                            );
                        },
                        Err(_) => {},
                    }
                }
                Progress::Done(conclude(result))
            },
            _ => Progress::Abandoned,
        }
    }

    /// Goes on as [`IterativeResolver::resume_with`] does, with an identifier drawn at random.
    pub fn resume(self, reply: Option<Vec<u8>>, cache: &mut LookupCache, now: Nanos) -> (r:
        Progress)
        requires
            self@.wf(),
            cache::entries_wf(old(cache)@),
            now <= cache::CLOCK_LIMIT,
        ensures
            exists|id: u16| #[trigger]
                resumes(
                    Situation { resolver: self@, cache: old(cache)@ },
                    reply_view(reply),
                    r,
                    final(cache)@,
                    now,
                    id,
                ),
            stays_whole(*old(cache), self@, reply_view(reply), now) ==> {
                &&& final(cache).whole()
                &&& exists|id: u16| #[trigger]
                    resumes_whole(
                        Situation { resolver: self@, cache: old(cache)@ },
                        reply_view(reply),
                        r,
                        final(cache)@,
                        now,
                        id,
                    )
            },
            final(cache).limit() == old(cache).limit(),
            r matches Progress::Exchange { resolver, .. } ==> resolver@.wf(),
            r matches Progress::Done(outcome) ==> outcome@.wf(),
            cache::entries_wf(final(cache)@),
    {
        let id: u16 = random_id();
        self.resume_with(reply, cache, now, id)
    }
}

/// What resolutions and replies stand for leaves nothing of them out.
proof fn law_views_of_resolutions_leave_nothing_out(
    r: IterativeResolver,
    reply: Option<Vec<u8>>,
)
    ensures
        r@.state == r.state@,
        r@.suspended.len() == r.suspended@.len(),
        forall|i: int|
            0 <= i < r.suspended@.len() ==> {
                &&& (#[trigger] r@.suspended[i]).lookup == r.suspended@[i].lookup@
                &&& r@.suspended[i].gathering == r.suspended@[i].gathering@
            },
        reply is Some <==> reply_view(reply) is Some,
        reply is Some ==> reply_view(reply)->0 == reply->0@,
{
}

/// A cache that has forgotten nothing is known to do so as long as what is learned from a reply
/// leaves it with no more entries than its limit.
pub proof fn law_room_keeps_caches_whole(
    cache: LookupCache,
    resolver: ResolverView,
    reply: Option<Seq<u8>>,
    now: Nanos,
)
    ensures
        stays_whole(cache, resolver, reply, now) <==> cache.whole() && received(
            Situation { resolver, cache: cache@ },
            reply,
            now,
        ).cache.dom().len() <= cache.limit(),
{
}

} // verus!
