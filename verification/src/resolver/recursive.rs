//! Resolution by servers that do the work.
use crate::message;
use crate::message::{Message, MessageView};
use crate::record;
use crate::record::SocketAddr;
use crate::resolver::transport::{Exchanged, ExchangedView};
use crate::resolver::types::{OutcomeView, ResolutionOutcome, ResolutionStatus};
use vstd::prelude::*;

verus! {

/// The address of a public server.
pub open spec fn public(ip: u32) -> SocketAddr {
    SocketAddr::V4 { ip, port: record::DNS_PORT }
}

/// The public servers that requests are forwarded to.
pub fn public_servers() -> (r: Vec<SocketAddr>)
    ensures
        r@ == seq![
            public(0x0808_0808),
            public(0x0808_0404),
            public(0x0101_0101),
            public(0x0100_0001),
            public(0x0909_0909),
        ],
{
    vec![
        SocketAddr::V4 { ip: 0x0808_0808, port: record::DNS_PORT },
        SocketAddr::V4 { ip: 0x0808_0404, port: record::DNS_PORT },
        SocketAddr::V4 { ip: 0x0101_0101, port: record::DNS_PORT },
        SocketAddr::V4 { ip: 0x0100_0001, port: record::DNS_PORT },
        SocketAddr::V4 { ip: 0x0909_0909, port: record::DNS_PORT },
    ]
}

/// Forwards requests to servers, each to the next one in turn.
#[derive(Debug)]
pub struct RecursiveForwardResolver {
    servers: Vec<SocketAddr>,
    next: usize,
}

/// What a [`RecursiveForwardResolver`] stands for: the servers, and whose turn it is.
pub struct ForwardView {
    pub servers: Seq<SocketAddr>,
    pub next: nat,
}

impl View for RecursiveForwardResolver {
    type V = ForwardView;

    closed spec fn view(&self) -> ForwardView {
        ForwardView { servers: self.servers@, next: self.next as nat }
    }
}

impl ForwardView {
    /// It is the turn of one of the servers.
    pub open spec fn wf(self) -> bool {
        self.next < self.servers.len()
    }

    /// After a server has had its turn.
    pub open spec fn turned(self) -> ForwardView {
        ForwardView { next: (self.next + 1) % self.servers.len(), ..self }
    }
}

/// What is to be done with a request.
#[derive(Debug)]
pub enum Forward {
    /// Send it to a server.
    Exchange { request: Vec<u8>, server: SocketAddr },
    /// Nothing: this is the outcome.
    Done(ResolutionOutcome),
}

/// The status that a response code stands for.
pub open spec fn status_for(response_code: u16) -> ResolutionStatus {
    if response_code == message::NO_ERROR {
        ResolutionStatus::NoError
    } else if response_code == message::NX_DOMAIN {
        ResolutionStatus::NxDomain
    } else {
        ResolutionStatus::ServFail
    }
}

/// The outcome that a response gives: its answers and authorities, whatever its code is.
pub open spec fn passed_on(response: MessageView) -> OutcomeView {
    OutcomeView {
        status: status_for(response.header.response_code),
        answers: response.answers,
        authorities: response.authorities,
    }
}

/// The outcome of a request that was sent to a server.
pub open spec fn forwarded(exchanged: ExchangedView) -> OutcomeView {
    match exchanged {
        ExchangedView::Reply(octets) => match message::decoded(octets) {
            Some(response) => passed_on(response),
            None => OutcomeView::failed(ResolutionStatus::Malformed),
        },
        ExchangedView::TimedOut => OutcomeView::failed(ResolutionStatus::Timeout),
        ExchangedView::Failed => OutcomeView::failed(ResolutionStatus::ServFail),
    }
}

/// An outcome without records.
fn failure(status: ResolutionStatus) -> (r: ResolutionOutcome)
    ensures
        r@ == OutcomeView::failed(status),
{
    let r = ResolutionOutcome::with_status(status, Vec::new());
    assert(r@.authorities =~= seq![]);
    r
}

/// The outcome that a response gives.
pub fn pass_on(response: Message) -> (r: ResolutionOutcome)
    ensures
        r@ == passed_on(response@),
{
    let status = if response.header.response_code == message::NO_ERROR {
        ResolutionStatus::NoError
    } else if response.header.response_code == message::NX_DOMAIN {
        ResolutionStatus::NxDomain
    } else {
        ResolutionStatus::ServFail
    };
    ResolutionOutcome { status, answers: response.answers, authorities: response.authorities }
}

/// The outcome of a request that was sent to a server.
pub fn conclude_forward(exchanged: Exchanged) -> (r: ResolutionOutcome)
    ensures
        r@ == forwarded(exchanged@),
        r@.wf(),
        exchanged@ matches ExchangedView::Reply(octets) ==> (message::decoded(octets) matches Some(
            m,
        ) ==> message::records_stand(r@.answers, m.header.op_code) && message::records_stand(
            r@.authorities,
            m.header.op_code,
        )),
{
    match exchanged {
        Exchanged::Reply(octets) => match message::decode(octets.as_slice()) {
            Ok(response) => pass_on(response),
            Err(_) => failure(ResolutionStatus::Malformed),
        },
        Exchanged::TimedOut => failure(ResolutionStatus::Timeout),
        Exchanged::Failed => failure(ResolutionStatus::ServFail),
    }
}

impl RecursiveForwardResolver {
    /// Forwards to these servers, beginning with the first.
    pub fn new(servers: Vec<SocketAddr>) -> (r: Self)
        ensures
            r@ == (ForwardView { servers: servers@, next: 0 }),
    {
        RecursiveForwardResolver { servers, next: 0 }
    }

    /// Takes a request to the server whose turn it is. A request that has no wire form takes up
    /// nobody's turn.
    pub fn forward(&mut self, request: Message) -> (r: Forward)
        requires
            old(self)@.wf(),
            request@.wf(),
        ensures
            final(self)@.wf(),
            match message::encoded(request@) {
                Some(octets) => {
                    &&& r is Exchange
                    &&& r->request@ == octets
                    &&& r->server == old(self)@.servers[old(self)@.next as int]
                    &&& final(self)@ == old(self)@.turned()
                },
                None => {
                    &&& r is Done
                    &&& r->Done_0@ == OutcomeView::failed(ResolutionStatus::Malformed)
                    &&& final(self)@ == old(self)@
                },
            },
    {
        match message::encode(request) {
            Ok(octets) => {
                let server = self.servers[self.next];
                let count: usize = self.servers.len();
                self.next = (self.next + 1) % count;
                Forward::Exchange { request: octets, server }
            },
            Err(_) => Forward::Done(failure(ResolutionStatus::Malformed)),
        }
    }
}

/// A resolver after a number of turns.
pub open spec fn turned_times(r: ForwardView, turns: nat) -> ForwardView
    decreases turns,
{
    if turns == 0 {
        r
    } else {
        turned_times(r, (turns - 1) as nat).turned()
    }
}

/// The servers take turns in their order, the first after the last.
pub proof fn law_servers_take_turns(r: ForwardView, turns: nat)
    requires
        r.wf(),
    ensures
        turned_times(r, turns).servers == r.servers,
        turned_times(r, turns).next == (r.next + turns) % r.servers.len(),
        turned_times(r, turns).wf(),
    decreases turns,
{
    let n = r.servers.len() as int;
    if turns == 0 {
        vstd::arithmetic::div_mod::lemma_small_mod(r.next, r.servers.len());
    } else {
        law_servers_take_turns(r, (turns - 1) as nat);
        let before = turned_times(r, (turns - 1) as nat).next as int;
        let total = r.next + turns - 1;
        assert(before == total % n);
        vstd::arithmetic::div_mod::lemma_add_mod_noop(total, 1, n);
        vstd::arithmetic::div_mod::lemma_add_mod_noop(before, 1, n);
        vstd::arithmetic::div_mod::lemma_mod_twice(total, n);
    }
}

/// In as many turns as there are servers, no server has two.
pub proof fn law_turns_are_shared(r: ForwardView, i: nat, j: nat)
    requires
        r.wf(),
        i < j < r.servers.len(),
    ensures
        turned_times(r, i).next != turned_times(r, j).next,
{
    law_servers_take_turns(r, i);
    law_servers_take_turns(r, j);
    let n = r.servers.len() as int;
    let (a, b) = ((r.next + i) as int, (r.next + j) as int);
    if a % n == b % n {
        vstd::arithmetic::div_mod::lemma_fundamental_div_mod(a, n);
        vstd::arithmetic::div_mod::lemma_fundamental_div_mod(b, n);
        assert(b - a == n * (b / n) - n * (a / n));
        assert(n * (b / n) - n * (a / n) == n * (b / n - a / n)) by (nonlinear_arith);
        let q = b / n - a / n;
        assert(q >= 1 ==> n * q >= n) by (nonlinear_arith)
            requires
                n > 0,
        ;
        assert(q <= 0 ==> n * q <= 0) by (nonlinear_arith)
            requires
                n > 0,
        ;
    }
}

/// A failure of the server, of the exchange or of the reply's form is never passed on as an
/// answer.
pub proof fn law_failures_carry_no_answer(exchanged: ExchangedView)
    ensures
        forwarded(exchanged).status == ResolutionStatus::NoError ==> {
            &&& exchanged is Reply
            &&& message::decoded(exchanged->Reply_0) is Some
            &&& message::decoded(exchanged->Reply_0)->0.header.response_code == message::NO_ERROR
        },
        !(exchanged is Reply) ==> forwarded(exchanged).answers.len() == 0
            && forwarded(exchanged).authorities.len() == 0,
{
}

/// A reply that is a message is passed on with exactly its answers and exactly its authorities,
/// record by record, whatever its code is; the code tells success, that the name does not exist,
/// or a failure.
pub proof fn law_replies_are_passed_on_whole(octets: Seq<u8>)
    requires
        message::decoded(octets) is Some,
    ensures
        ({
            let m = message::decoded(octets)->0;
            let outcome = forwarded(ExchangedView::Reply(octets));
            &&& outcome.answers.len() == m.answers.len()
            &&& forall|i: int|
                0 <= i < m.answers.len() ==> #[trigger] outcome.answers[i] == m.answers[i]
            &&& outcome.answers == m.answers
            &&& outcome.authorities.len() == m.authorities.len()
            &&& forall|i: int|
                0 <= i < m.authorities.len() ==> #[trigger] outcome.authorities[i]
                    == m.authorities[i]
            &&& outcome.authorities == m.authorities
            &&& outcome.status == if m.header.response_code == 0 {
                ResolutionStatus::NoError
            } else if m.header.response_code == 3 {
                ResolutionStatus::NxDomain
            } else {
                ResolutionStatus::ServFail
            }
        }),
{
}

/// Without a reply that is a message there are no records, and the status tells what went wrong.
pub proof fn law_forwarding_fails_by_its_cause(exchanged: ExchangedView)
    requires
        exchanged is Reply ==> message::decoded(exchanged->Reply_0) is None,
    ensures
        forwarded(exchanged).answers.len() == 0,
        forwarded(exchanged).authorities.len() == 0,
        forwarded(exchanged).status == match exchanged {
            ExchangedView::Reply(_) => ResolutionStatus::Malformed,
            ExchangedView::TimedOut => ResolutionStatus::Timeout,
            ExchangedView::Failed => ResolutionStatus::ServFail,
        },
{
}

/// Public servers are asked at port 53, and requests can be forwarded to any servers, as long as
/// it is the turn of one of them.
pub proof fn law_any_servers_will_do(ip: u32, servers: Seq<SocketAddr>, next: nat)
    ensures
        public(ip) == (SocketAddr::V4 { ip, port: 53 }),
        (ForwardView { servers, next }).wf() <==> next < servers.len(),
{
}

} // verus!
