//! Which response belongs to which request.
use crate::message;
use crate::message::WireError;
use crate::record::SocketAddr;
use vstd::prelude::*;

verus! {

/// What came of sending a request to a server.
#[derive(Debug)]
pub enum Exchanged {
    /// These octets came back.
    Reply(Vec<u8>),
    /// Nothing came in time.
    TimedOut,
    /// The request could not be sent, or what came back was lost.
    Failed,
}

/// What an [`Exchanged`] stands for.
pub enum ExchangedView {
    Reply(Seq<u8>),
    TimedOut,
    Failed,
}

impl View for Exchanged {
    type V = ExchangedView;

    open spec fn view(&self) -> ExchangedView {
        match self {
            Exchanged::Reply(octets) => ExchangedView::Reply(octets@),
            Exchanged::TimedOut => ExchangedView::TimedOut,
            Exchanged::Failed => ExchangedView::Failed,
        }
    }
}

impl Exchanged {
    /// The octets that came back, if any did.
    pub fn reply(self) -> (r: Option<Vec<u8>>)
        ensures
            r is Some <==> self is Reply,
            r is Some ==> r->0@ == self@->Reply_0,
    {
        match self {
            Exchanged::Reply(octets) => Some(octets),
            _ => None,
        }
    }
}

/// How waiting for a response ended.
#[derive(Debug)]
pub enum Waited {
    /// These octets came.
    Received(Vec<u8>),
    /// The request could not be sent, for another reason than that it took too long.
    NotSent,
    /// No response can come any more.
    Closed,
    /// Nothing came in time, or sending took too long.
    TimedOut,
}

/// What came of sending a request, by how waiting for the response ended.
pub open spec fn exchanged(waited: Waited) -> ExchangedView {
    match waited {
        Waited::Received(octets) => ExchangedView::Reply(octets@),
        Waited::TimedOut => ExchangedView::TimedOut,
        _ => ExchangedView::Failed,
    }
}

/// What is to be done about a request.
#[derive(Debug)]
pub enum Start<T> {
    /// Send it: it waits for its response under this identifier.
    Send(u16),
    /// Nothing yet: as many requests wait as may. Its waiter is handed back.
    Wait(T),
    /// Give it up: it is no message, or one with its identifier waits for the server already.
    Refuse,
}

/// A request that waits for its response.
#[derive(Debug)]
struct Pending<T> {
    id: u16,
    server: SocketAddr,
    waiter: T,
}

/// The requests that wait for a response, by identifier and server, and who waits for each. There
/// is a limit on how many there may be at a time.
#[derive(Debug)]
pub struct PendingRequests<T> {
    limit: usize,
    requests: Vec<Pending<T>>,
}

/// The requests of a list, by identifier and server.
spec fn requests_map<T>(requests: Seq<Pending<T>>) -> Map<(u16, SocketAddr), T>
    decreases requests.len(),
{
    if requests.len() == 0 {
        Map::empty()
    } else {
        let last = requests.last();
        requests_map(requests.drop_last()).insert((last.id, last.server), last.waiter)
    }
}

/// No two requests of a list share identifier and server.
spec fn distinct<T>(requests: Seq<Pending<T>>) -> bool {
    forall|i: int, j: int|
        0 <= i < j < requests.len() ==> (#[trigger] requests[i]).id != (#[trigger] requests[j]).id
            || requests[i].server != requests[j].server
}

impl<T> View for PendingRequests<T> {
    type V = Map<(u16, SocketAddr), T>;

    closed spec fn view(&self) -> Map<(u16, SocketAddr), T> {
        requests_map(self.requests@)
    }
}

proof fn lemma_map_holds<T>(requests: Seq<Pending<T>>)
    requires
        distinct(requests),
    ensures
        forall|i: int|
            0 <= i < requests.len() ==> {
                let key = ((#[trigger] requests[i]).id, requests[i].server);
                requests_map(requests).contains_key(key) && requests_map(requests)[key]
                    == requests[i].waiter
            },
        forall|key: (u16, SocketAddr)| #[trigger]
            requests_map(requests).contains_key(key) ==> exists|i: int|
                0 <= i < requests.len() && (#[trigger] requests[i]).id == key.0
                    && requests[i].server == key.1,
    decreases requests.len(),
{
    if requests.len() > 0 {
        let rest = requests.drop_last();
        assert(distinct(rest)) by {
            assert forall|i: int, j: int| 0 <= i < j < rest.len() implies (#[trigger] rest[i]).id
                != (#[trigger] rest[j]).id || rest[i].server != rest[j].server by {
                assert(requests[i] == rest[i] && requests[j] == rest[j]);
            }
        }
        lemma_map_holds(rest);
        assert forall|i: int| 0 <= i < requests.len() implies {
            let key = ((#[trigger] requests[i]).id, requests[i].server);
            requests_map(requests).contains_key(key) && requests_map(requests)[key]
                == requests[i].waiter
        } by {
            if i < rest.len() {
                assert(rest[i] == requests[i]);
                let last = requests[requests.len() - 1];
                assert(requests[i].id != last.id || requests[i].server != last.server);
            }
        }
        assert forall|key: (u16, SocketAddr)| #[trigger]
            requests_map(requests).contains_key(key) implies exists|i: int|
            0 <= i < requests.len() && (#[trigger] requests[i]).id == key.0 && requests[i].server
                == key.1 by {
            if key == (requests.last().id, requests.last().server) {
                assert(requests[requests.len() - 1].id == key.0);
            } else {
                assert(requests_map(rest).contains_key(key));
                let i = choose|i: int|
                    0 <= i < rest.len() && (#[trigger] rest[i]).id == key.0 && rest[i].server
                        == key.1;
                assert(requests[i] == rest[i]);
            }
        }
    }
}

/// A list of distinct requests is as long as the map is large.
proof fn lemma_map_len<T>(requests: Seq<Pending<T>>)
    requires
        distinct(requests),
    ensures
        requests_map(requests).dom().finite(),
        requests_map(requests).dom().len() == requests.len(),
    decreases requests.len(),
{
    if requests.len() > 0 {
        let rest = requests.drop_last();
        let last = requests[requests.len() - 1];
        assert(distinct(rest)) by {
            assert forall|i: int, j: int| 0 <= i < j < rest.len() implies (#[trigger] rest[i]).id
                != (#[trigger] rest[j]).id || rest[i].server != rest[j].server by {
                assert(requests[i] == rest[i] && requests[j] == rest[j]);
            }
        }
        lemma_map_len(rest);
        lemma_map_holds(rest);
        if requests_map(rest).contains_key((last.id, last.server)) {
            let i = choose|i: int|
                0 <= i < rest.len() && (#[trigger] rest[i]).id == last.id && rest[i].server
                    == last.server;
            assert(requests[i] == rest[i]);
        }
        assert(requests_map(requests).dom() =~= requests_map(rest).dom().insert(
            (last.id, last.server),
        ));
    }
}

/// Removing a request from a list removes it from the map.
proof fn lemma_map_remove<T>(requests: Seq<Pending<T>>, at: int)
    requires
        distinct(requests),
        0 <= at < requests.len(),
    ensures
        distinct(requests.remove(at)),
        requests_map(requests.remove(at)) == requests_map(requests).remove(
            (requests[at].id, requests[at].server),
        ),
{
    let less = requests.remove(at);
    let key = (requests[at].id, requests[at].server);
    assert forall|i: int, j: int| 0 <= i < j < less.len() implies (#[trigger] less[i]).id != (
    #[trigger] less[j]).id || less[i].server != less[j].server by {
        let (k, l) = (
            if i < at {
                i
            } else {
                i + 1
            },
            if j < at {
                j
            } else {
                j + 1
            },
        );
        assert(less[i] == requests[k] && less[j] == requests[l]);
    }
    lemma_map_holds(requests);
    lemma_map_holds(less);
    let (before, after) = (requests_map(requests), requests_map(less));
    assert forall|k: (u16, SocketAddr)| #[trigger]
        after.contains_key(k) == before.remove(key).contains_key(k) by {
        if after.contains_key(k) {
            let i = choose|i: int|
                0 <= i < less.len() && (#[trigger] less[i]).id == k.0 && less[i].server == k.1;
            let j = if i < at {
                i
            } else {
                i + 1
            };
            assert(less[i] == requests[j]);
            assert(requests[j].id != requests[at].id || requests[j].server
                != requests[at].server);
        }
        if before.contains_key(k) && k != key {
            let j = choose|j: int|
                0 <= j < requests.len() && (#[trigger] requests[j]).id == k.0 && requests[j].server
                    == k.1;
            let i = if j < at {
                j
            } else {
                j - 1
            };
            assert(less[i] == requests[j]);
        }
    }
    assert forall|k: (u16, SocketAddr)| #[trigger] after.contains_key(k) implies after[k]
        == before[k] by {
        let i = choose|i: int|
            0 <= i < less.len() && (#[trigger] less[i]).id == k.0 && less[i].server == k.1;
        let j = if i < at {
            i
        } else {
            i + 1
        };
        assert(less[i] == requests[j]);
    }
    assert(after =~= before.remove(key));
}

impl<T> PendingRequests<T> {
    /// How many requests may wait at a time.
    pub closed spec fn limit(&self) -> nat {
        self.limit as nat
    }

    /// No request is listed twice, and there are no more than the limit.
    pub closed spec fn wf(&self) -> bool {
        distinct(self.requests@) && self.requests@.len() <= self.limit
    }

    /// Nothing waits; up to `limit` requests may.
    pub fn new(limit: usize) -> (r: Self)
        ensures
            r.wf(),
            r.limit() == limit,
            r@ == Map::<(u16, SocketAddr), T>::empty(),
    {
        PendingRequests { limit, requests: Vec::new() }
    }

    /// Whether another request may wait.
    pub fn has_room(&self) -> (r: bool)
        requires
            self.wf(),
        ensures
            r == (self@.dom().len() < self.limit()),
            self@.dom().len() <= self.limit(),
    {
        proof {
            lemma_map_len(self.requests@);
        }
        self.requests.len() < self.limit
    }

    /// Where the request with an identifier to a server is listed.
    fn find(&self, id: u16, server: SocketAddr) -> (r: Option<usize>)
        requires
            self.wf(),
        ensures
            match r {
                Some(i) => {
                    &&& i < self.requests@.len()
                    &&& self.requests@[i as int].id == id
                    &&& self.requests@[i as int].server == server
                    &&& self@.contains_key((id, server))
                    &&& self@[(id, server)] == self.requests@[i as int].waiter
                },
                None => !self@.contains_key((id, server)),
            },
    {
        proof {
            lemma_map_holds(self.requests@);
        }
        for i in 0..self.requests.len()
            invariant
                self.wf(),
                forall|j: int|
                    0 <= j < i ==> (#[trigger] self.requests@[j]).id != id
                        || self.requests@[j].server != server,
        {
            if self.requests[i].id == id && self.requests[i].server == server {
                proof {
                    lemma_map_holds(self.requests@);
                }
                return Some(i);
            }
        }
        None
    }

    /// Lists a request, unless one with this identifier waits for this server already or as many
    /// wait as may: then its waiter is handed back.
    pub fn register(&mut self, id: u16, server: SocketAddr, waiter: T) -> (r: Result<(), T>)
        requires
            old(self).wf(),
        ensures
            final(self).wf(),
            final(self).limit() == old(self).limit(),
            if old(self)@.contains_key((id, server)) || old(self)@.dom().len()
                >= old(self).limit() {
                r == Err::<(), T>(waiter) && final(self)@ == old(self)@
            } else {
                r is Ok && final(self)@ == old(self)@.insert((id, server), waiter)
            },
    {
        if !self.has_room() {
            return Err(waiter);
        }
        match self.find(id, server) {
            Some(_) => Err(waiter),
            None => {
                let ghost before = self.requests@;
                self.requests.push(Pending { id, server, waiter });
                proof {
                    lemma_map_len(before);
                    lemma_map_holds(before);
                    let after = self.requests@;
                    assert(after.drop_last() =~= before);
                    assert forall|i: int, j: int| 0 <= i < j < after.len() implies (
                    #[trigger] after[i]).id != (#[trigger] after[j]).id || after[i].server
                        != after[j].server by {
                        assert(before[i] == after[i]);
                        if j < before.len() {
                            assert(before[j] == after[j]);
                        }
                    }
                }
                Ok(())
            },
        }
    }

    /// Starts to exchange a request with a server. One that is no message is given up. While as
    /// many wait as may, any other has to wait until one of them has ended: it is neither listed
    /// nor given up. Where there is room it is listed, unless one with its identifier waits for
    /// this server already.
    pub fn start(&mut self, request: &[u8], server: SocketAddr, waiter: T) -> (r: Start<T>)
        requires
            old(self).wf(),
        ensures
            final(self).wf(),
            final(self).limit() == old(self).limit(),
            match message::decoded(request@) {
                Some(m) => {
                    let key = (m.header.id, server);
                    if old(self)@.dom().len() >= old(self).limit() {
                        r == Start::Wait(waiter) && final(self)@ == old(self)@
                    } else if old(self)@.contains_key(key) {
                        r == Start::<T>::Refuse && final(self)@ == old(self)@
                    } else {
                        &&& r == Start::<T>::Send(m.header.id)
                        &&& final(self)@ == old(self)@.insert(key, waiter)
                    }
                },
                None => r == Start::<T>::Refuse && final(self)@ == old(self)@,
            },
    {
        match message_id(request) {
            Ok(id) => {
                if !self.has_room() {
                    return Start::Wait(waiter);
                }
                match self.register(id, server, waiter) {
                    Ok(()) => Start::Send(id),
                    Err(_) => Start::Refuse,
                }
            },
            Err(_) => Start::Refuse,
        }
    }

    /// Strikes a request from the list and hands out who waits for it.
    pub fn take(&mut self, id: u16, server: SocketAddr) -> (r: Option<T>)
        requires
            old(self).wf(),
        ensures
            final(self).wf(),
            final(self).limit() == old(self).limit(),
            final(self)@ == old(self)@.remove((id, server)),
            r == if old(self)@.contains_key((id, server)) {
                Some(old(self)@[(id, server)])
            } else {
                None
            },
    {
        match self.find(id, server) {
            Some(i) => {
                proof {
                    lemma_map_remove(self.requests@, i as int);
                }
                let pending = self.requests.remove(i);
                Some(pending.waiter)
            },
            None => {
                assert(self@.remove((id, server)) =~= self@);
                None
            },
        }
    }

    /// Ends the exchange of a request that was listed. One that got no response is struck from
    /// the list; one that got a response was struck when the response came.
    pub fn finish(&mut self, id: u16, server: SocketAddr, waited: Waited) -> (r: Exchanged)
        requires
            old(self).wf(),
        ensures
            final(self).wf(),
            final(self).limit() == old(self).limit(),
            r@ == exchanged(waited),
            final(self)@ == if waited is Received {
                old(self)@
            } else {
                old(self)@.remove((id, server))
            },
    {
        match waited {
            Waited::Received(octets) => Exchanged::Reply(octets),
            Waited::TimedOut => {
                self.take(id, server);
                Exchanged::TimedOut
            },
            Waited::NotSent | Waited::Closed => {
                self.take(id, server);
                Exchanged::Failed
            },
        }
    }

    /// Hands out who waits for octets that came from a server, if they are a message and someone
    /// does.
    pub fn route(&mut self, octets: &[u8], server: SocketAddr) -> (r: Option<T>)
        requires
            old(self).wf(),
        ensures
            final(self).wf(),
            final(self).limit() == old(self).limit(),
            match message::decoded(octets@) {
                Some(m) => {
                    &&& final(self)@ == old(self)@.remove((m.header.id, server))
                    &&& r == if old(self)@.contains_key((m.header.id, server)) {
                        Some(old(self)@[(m.header.id, server)])
                    } else {
                        None
                    }
                },
                None => r is None && final(self)@ == old(self)@,
            },
    {
        match message_id(octets) {
            Ok(id) => self.take(id, server),
            Err(_) => None,
        }
    }
}

/// The identifier of a message given by its octets.
pub fn message_id(octets: &[u8]) -> (r: Result<u16, WireError>)
    ensures
        match r {
            Ok(id) => message::decoded(octets@) is Some && id == message::decoded(
                octets@,
            )->0.header.id,
            Err(_) => message::decoded(octets@) is None,
        },
{
    match message::decode(octets) {
        Ok(m) => Ok(m.header.id),
        Err(e) => Err(e),
    }
}

/// No more requests wait at a time than the limit allows.
pub proof fn law_pending_requests_are_limited<T>(pending: PendingRequests<T>)
    requires
        pending.wf(),
    ensures
        pending@.dom().len() <= pending.limit(),
{
    lemma_map_len(pending.requests@);
}

/// When a request that waits for its response ends, there is room for one that had to wait.
pub proof fn law_ended_requests_make_room<T>(
    pending: PendingRequests<T>,
    id: u16,
    server: SocketAddr,
)
    requires
        pending.wf(),
        pending@.contains_key((id, server)),
    ensures
        pending@.remove((id, server)).dom().len() < pending.limit(),
{
    lemma_map_len(pending.requests@);
    assert(pending@.remove((id, server)).dom() =~= pending@.dom().remove((id, server)));
}

/// Requests with one identifier to two servers do not get in each other's way, and nobody is
/// handed out twice.
pub proof fn law_servers_do_not_mix<T>(
    pending: Map<(u16, SocketAddr), T>,
    id: u16,
    a: SocketAddr,
    b: SocketAddr,
)
    requires
        a != b,
    ensures
        pending.remove((id, a)).contains_key((id, b)) == pending.contains_key((id, b)),
        pending.contains_key((id, b)) ==> pending.remove((id, a))[(id, b)] == pending[(id, b)],
        !pending.remove((id, a)).contains_key((id, a)),
{
}

/// An exchange leaves nothing behind: a request that was listed and then got its response, or was
/// given up, leaves the list as it was before.
pub proof fn law_exchanges_leave_nothing<T>(
    pending: Map<(u16, SocketAddr), T>,
    id: u16,
    server: SocketAddr,
    waiter: T,
)
    requires
        !pending.contains_key((id, server)),
    ensures
        pending.insert((id, server), waiter).remove((id, server)) == pending,
{
    assert(pending.insert((id, server), waiter).remove((id, server)) =~= pending);
}

/// What is heard of a request comes back unchanged; if nothing came in time, that is said, and
/// every other end is a failure.
pub proof fn law_exchanges_end_as_waiting_does(waited: Waited)
    ensures
        match waited {
            Waited::Received(octets) => exchanged(waited) == ExchangedView::Reply(octets@),
            Waited::TimedOut => exchanged(waited) is TimedOut,
            Waited::NotSent => exchanged(waited) is Failed,
            Waited::Closed => exchanged(waited) is Failed,
        },
{
}

/// What exchanges stand for leaves nothing of them out.
pub proof fn law_views_of_exchanges_leave_nothing_out(exchanged: Exchanged)
    ensures
        match exchanged {
            Exchanged::Reply(octets) => exchanged@ == ExchangedView::Reply(octets@),
            Exchanged::TimedOut => exchanged@ is TimedOut,
            Exchanged::Failed => exchanged@ is Failed,
        },
{
}

} // verus!
