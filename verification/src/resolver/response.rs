//! What the response of a name server tells a lookup to do next.
use crate::message;
use crate::message::{Message, MessageView};
use crate::name;
use crate::name::Name;
use crate::record;
use crate::record::{RData, RDataView, Record, RecordView, SocketAddr};
use crate::selection;
use vstd::prelude::*;

verus! {

/// What a response says about a name and a record type.
#[derive(Debug)]
pub enum Verdict {
    /// These records answer the question.
    Answer(Vec<Record>),
    /// The name is an alias of another.
    Alias { record: Record, target: Name },
    /// The name is an alias, but the record does not say of what.
    EmptyAlias,
    /// The name does not exist.
    NxDomain,
    /// The server failed.
    ServFail,
    /// The name has no such records; these records say whose authority that rests on.
    NoData(Vec<Record>),
    /// Other servers know more: their names, and the addresses that came along.
    Referral { servers: Vec<Name>, addresses: Vec<SocketAddr> },
}

/// What a [`Verdict`] stands for.
pub enum VerdictView {
    Answer(Seq<RecordView>),
    Alias { record: RecordView, target: Seq<Seq<u8>> },
    EmptyAlias,
    NxDomain,
    ServFail,
    NoData(Seq<RecordView>),
    Referral { servers: Seq<Seq<Seq<u8>>>, addresses: Seq<SocketAddr> },
}

/// What a list of names stands for.
pub open spec fn names_view(names: Seq<Name>) -> Seq<Seq<Seq<u8>>> {
    names.map_values(|n: Name| n@)
}

impl View for Verdict {
    type V = VerdictView;

    open spec fn view(&self) -> VerdictView {
        match self {
            Verdict::Answer(records) => VerdictView::Answer(record::records_view(records@)),
            Verdict::Alias { record, target } => VerdictView::Alias {
                record: record@,
                target: target@,
            },
            Verdict::EmptyAlias => VerdictView::EmptyAlias,
            Verdict::NxDomain => VerdictView::NxDomain,
            Verdict::ServFail => VerdictView::ServFail,
            Verdict::NoData(records) => VerdictView::NoData(record::records_view(records@)),
            Verdict::Referral { servers, addresses } => VerdictView::Referral {
                servers: names_view(servers@),
                addresses: addresses@,
            },
        }
    }
}

/// The records of a list that belong to a name and are of a type.
pub open spec fn answering(
    records: Seq<RecordView>,
    name: Seq<Seq<u8>>,
    record_type: u16,
) -> Seq<RecordView> {
    records.filter(|r: RecordView| r.answers(name, record_type))
}

/// The start-of-authority records of a list.
pub open spec fn authority_records(records: Seq<RecordView>) -> Seq<RecordView> {
    records.filter(|r: RecordView| r.data.record_type() == record::TYPE_SOA)
}

/// The name servers that the records of a list name.
pub open spec fn server_names(records: Seq<RecordView>) -> Seq<Seq<Seq<u8>>>
    decreases records.len(),
{
    if records.len() == 0 {
        seq![]
    } else {
        let rest = server_names(records.drop_last());
        match records.last().data {
            RDataView::NS(n) => rest.push(n),
            _ => rest,
        }
    }
}

/// A name is among those listed.
pub open spec fn listed(names: Seq<Seq<Seq<u8>>>, n: Seq<Seq<u8>>) -> bool {
    exists|i: int| 0 <= i < names.len() && name::same_name(#[trigger] names[i], n)
}

/// The addresses that the records of a list give for the names.
pub open spec fn addresses_of(records: Seq<RecordView>, names: Seq<Seq<Seq<u8>>>) -> Seq<SocketAddr>
    decreases records.len(),
{
    if records.len() == 0 {
        seq![]
    } else {
        let rest = addresses_of(records.drop_last(), names);
        let last = records.last();
        match last.data.server() {
            Some(address) if listed(names, last.name) => rest.push(address),
            _ => rest,
        }
    }
}

/// What a response says about a name and a record type: the records that answer come first, then
/// an alias, then the response code, then the authority for there being no such records; what is
/// left is a referral.
pub open spec fn judged(
    response: MessageView,
    name: Seq<Seq<u8>>,
    record_type: u16,
) -> VerdictView {
    let found = answering(response.answers, name, record_type);
    let aliases = answering(response.answers, name, record::TYPE_CNAME);
    let authorities = authority_records(response.authorities);
    if found.len() > 0 {
        VerdictView::Answer(found)
    } else if aliases.len() > 0 {
        match aliases[0].data {
            RDataView::CNAME(target) => VerdictView::Alias { record: aliases[0], target },
            _ => VerdictView::EmptyAlias,
        }
    } else if response.header.response_code == message::NX_DOMAIN {
        VerdictView::NxDomain
    } else if response.header.response_code == message::SERV_FAIL {
        VerdictView::ServFail
    } else if authorities.len() > 0 {
        VerdictView::NoData(authorities)
    } else {
        let servers = server_names(response.authorities);
        VerdictView::Referral { servers, addresses: addresses_of(response.additionals, servers) }
    }
}

impl VerdictView {
    /// Every name in the verdict is one that the DNS allows.
    pub open spec fn wf(self) -> bool {
        match self {
            VerdictView::Answer(records) => record::records_wf(records),
            VerdictView::Alias { record, target } => record.wf() && name::valid_labels(target),
            VerdictView::NoData(records) => record::records_wf(records),
            VerdictView::Referral { servers, .. } => names_wf(servers),
            _ => true,
        }
    }
}

/// Every name of a list is one that the DNS allows.
pub open spec fn names_wf(names: Seq<Seq<Seq<u8>>>) -> bool {
    forall|i: int| 0 <= i < names.len() ==> name::valid_labels(#[trigger] names[i])
}

/// Filtering a list that grew by one item.
pub proof fn lemma_filter_push<A>(s: Seq<A>, x: A, keep: spec_fn(A) -> bool)
    ensures
        s.push(x).filter(keep) == if keep(x) {
            s.filter(keep).push(x)
        } else {
            s.filter(keep)
        },
{
    reveal(Seq::filter);
    assert(s.push(x).drop_last() =~= s);
}

/// A filtered list holds items of the list only.
pub proof fn lemma_filter_wf(s: Seq<RecordView>, keep: spec_fn(RecordView) -> bool)
    requires
        record::records_wf(s),
    ensures
        record::records_wf(s.filter(keep)),
    decreases s.len(),
{
    reveal(Seq::filter);
    if s.len() > 0 {
        assert(record::records_wf(s.drop_last())) by {
            assert forall|i: int| 0 <= i < s.drop_last().len() implies (
            #[trigger] s.drop_last()[i]).wf() by {
                assert(s[i].wf());
            }
        }
        lemma_filter_wf(s.drop_last(), keep);
        assert(s[s.len() - 1].wf());
    }
}

/// The records of a list that belong to a name and are of a type.
fn select_answering(records: &Vec<Record>, name: &Name, record_type: u16) -> (r: Vec<Record>)
    ensures
        record::records_view(r@) == answering(
            record::records_view(records@),
            name@,
            record_type,
        ),
{
    let ghost view = record::records_view(records@);
    let ghost keep = |r: RecordView| r.answers(name@, record_type);
    let mut out: Vec<Record> = Vec::new();
    proof {
        reveal(Seq::filter);
        assert(record::records_view(out@) =~= view.take(0).filter(keep));
    }
    for i in 0..records.len()
        invariant
            view == record::records_view(records@),
            keep == (|r: RecordView| r.answers(name@, record_type)),
            record::records_view(out@) == view.take(i as int).filter(keep),
    {
        proof {
            assert(view.take(i + 1) =~= view.take(i as int).push(view[i as int]));
            lemma_filter_push(view.take(i as int), view[i as int], keep);
        }
        if records[i].answers(name, record_type) {
            let ghost before = out@;
            let copy = records[i].clone();
            out.push(copy);
            assert(record::records_view(out@) =~= record::records_view(before).push(copy@));
        }
    }
    assert(view.take(view.len() as int) =~= view);
    out
}

/// The start-of-authority records of a list.
fn select_authority_records(records: &Vec<Record>) -> (r: Vec<Record>)
    ensures
        record::records_view(r@) == authority_records(record::records_view(records@)),
{
    let ghost view = record::records_view(records@);
    let ghost keep = |r: RecordView| r.data.record_type() == record::TYPE_SOA;
    let mut out: Vec<Record> = Vec::new();
    proof {
        reveal(Seq::filter);
        assert(record::records_view(out@) =~= view.take(0).filter(keep));
    }
    for i in 0..records.len()
        invariant
            view == record::records_view(records@),
            keep == (|r: RecordView| r.data.record_type() == record::TYPE_SOA),
            record::records_view(out@) == view.take(i as int).filter(keep),
    {
        proof {
            assert(view.take(i + 1) =~= view.take(i as int).push(view[i as int]));
            lemma_filter_push(view.take(i as int), view[i as int], keep);
        }
        if records[i].data.record_type() == record::TYPE_SOA {
            let ghost before = out@;
            let copy = records[i].clone();
            out.push(copy);
            assert(record::records_view(out@) =~= record::records_view(before).push(copy@));
        }
    }
    assert(view.take(view.len() as int) =~= view);
    out
}

/// The name servers that the records of a list name.
fn select_server_names(records: &Vec<Record>) -> (r: Vec<Name>)
    ensures
        names_view(r@) == server_names(record::records_view(records@)),
{
    let ghost view = record::records_view(records@);
    let mut out: Vec<Name> = Vec::new();
    assert(names_view(out@) =~= server_names(view.take(0)));
    for i in 0..records.len()
        invariant
            view == record::records_view(records@),
            names_view(out@) == server_names(view.take(i as int)),
    {
        assert(view.take(i + 1).drop_last() =~= view.take(i as int));
        assert(view.take(i + 1).last() == records@[i as int]@);
        match &records[i].data {
            RData::NS(n) => {
                let ghost before = out@;
                let copy = n.clone();
                out.push(copy);
                assert(names_view(out@) =~= names_view(before).push(copy@));
            },
            _ => {},
        }
    }
    assert(view.take(view.len() as int) =~= view);
    out
}

/// Whether a name is among those listed.
fn is_listed(names: &Vec<Name>, n: &Name) -> (r: bool)
    ensures
        r == listed(names_view(names@), n@),
{
    for i in 0..names.len()
        invariant
            forall|j: int|
                0 <= j < i ==> !name::same_name(#[trigger] names_view(names@)[j], n@),
    {
        assert(names_view(names@)[i as int] == names@[i as int]@);
        if names[i].same(n) {
            return true;
        }
    }
    false
}

/// The addresses that the records of a list give for the names.
fn select_addresses(records: &Vec<Record>, names: &Vec<Name>) -> (r: Vec<SocketAddr>)
    ensures
        r@ == addresses_of(record::records_view(records@), names_view(names@)),
{
    let ghost view = record::records_view(records@);
    let mut out: Vec<SocketAddr> = Vec::new();
    for i in 0..records.len()
        invariant
            view == record::records_view(records@),
            out@ == addresses_of(view.take(i as int), names_view(names@)),
    {
        assert(view.take(i + 1).drop_last() =~= view.take(i as int));
        assert(view.take(i + 1).last() == records@[i as int]@);
        match records[i].data.server() {
            Some(address) => {
                if is_listed(names, &records[i].name) {
                    out.push(address);
                }
            },
            None => {},
        }
    }
    assert(view.take(view.len() as int) =~= view);
    out
}

/// What a response says about a name and a record type.
pub fn judge(response: &Message, name: &Name, record_type: u16) -> (r: Verdict)
    ensures
        r@ == judged(response@, name@, record_type),
{
    let found = select_answering(&response.answers, name, record_type);
    if found.len() > 0 {
        return Verdict::Answer(found);
    }
    let aliases = select_answering(&response.answers, name, record::TYPE_CNAME);
    if aliases.len() > 0 {
        let record = aliases[0].clone();
        assert(record@ == record::records_view(aliases@)[0]);
        let target = match &record.data {
            RData::CNAME(target) => target.clone(),
            _ => return Verdict::EmptyAlias,
        };
        return Verdict::Alias { record, target };
    }
    if response.header.response_code == message::NX_DOMAIN {
        return Verdict::NxDomain;
    }
    if response.header.response_code == message::SERV_FAIL {
        return Verdict::ServFail;
    }
    let authorities = select_authority_records(&response.authorities);
    if authorities.len() > 0 {
        return Verdict::NoData(authorities);
    }
    let servers = select_server_names(&response.authorities);
    let addresses = select_addresses(&response.additionals, &servers);
    Verdict::Referral { servers, addresses }
}

proof fn lemma_server_names_wf(records: Seq<RecordView>)
    requires
        record::records_wf(records),
    ensures
        names_wf(server_names(records)),
    decreases records.len(),
{
    if records.len() > 0 {
        assert(record::records_wf(records.drop_last())) by {
            assert forall|i: int| 0 <= i < records.drop_last().len() implies (
            #[trigger] records.drop_last()[i]).wf() by {
                assert(records[i].wf());
            }
        }
        lemma_server_names_wf(records.drop_last());
        assert(records[records.len() - 1].wf());
    }
}

/// A verdict on a response with allowed names holds allowed names.
pub proof fn lemma_judged_wf(response: MessageView, name: Seq<Seq<u8>>, record_type: u16)
    requires
        response.wf(),
    ensures
        judged(response, name, record_type).wf(),
{
    lemma_filter_wf(response.answers, |r: RecordView| r.answers(name, record_type));
    lemma_filter_wf(response.answers, |r: RecordView| r.answers(name, record::TYPE_CNAME));
    lemma_filter_wf(
        response.authorities,
        |r: RecordView| r.data.record_type() == record::TYPE_SOA,
    );
    lemma_server_names_wf(response.authorities);
    let aliases = answering(response.answers, name, record::TYPE_CNAME);
    if aliases.len() > 0 {
        assert(aliases[0].wf());
    }
}

/// A list holds a record of a name, in any spelling, and of a type.
pub open spec fn holds_record_of(
    records: Seq<RecordView>,
    name: Seq<Seq<u8>>,
    record_type: u16,
) -> bool {
    exists|i: int|
        0 <= i < records.len() && name::same_name((#[trigger] records[i]).name, name)
            && records[i].data.record_type() == record_type
}

proof fn lemma_answering(records: Seq<RecordView>, name: Seq<Seq<u8>>, record_type: u16)
    ensures
        selection::selection(
            records,
            |r: RecordView| name::same_name(r.name, name) && r.data.record_type() == record_type,
            |r: RecordView| r,
            answering(records, name, record_type),
        ),
        answering(records, name, record_type).len() > 0 <==> holds_record_of(
            records,
            name,
            record_type,
        ),
{
    let keep = |r: RecordView|
        name::same_name(r.name, name) && r.data.record_type() == record_type;
    let found = answering(records, name, record_type);
    selection::lemma_filter_is_selection(
        records,
        |r: RecordView| r.answers(name, record_type),
        keep,
    );
    selection::lemma_selection_holds(records, keep, |r: RecordView| r, found);
    if found.len() > 0 {
        let i = choose|i: int| 0 <= i < records.len() && keep(#[trigger] records[i]);
        assert(name::same_name(records[i].name, name));
    }
    if holds_record_of(records, name, record_type) {
        let i = choose|i: int|
            0 <= i < records.len() && name::same_name((#[trigger] records[i]).name, name)
                && records[i].data.record_type() == record_type;
        assert(keep(records[i]));
    }
}

/// A response is taken for an answer if and only if its answer section holds a record whose owner
/// is the name, in any spelling, and whose type is the one asked for, whatever that is; the answer
/// is then all of these records and no others, in their order.
pub proof fn law_answers_are_all_records_asked_for(
    response: MessageView,
    name: Seq<Seq<u8>>,
    record_type: u16,
)
    ensures
        judged(response, name, record_type) is Answer <==> holds_record_of(
            response.answers,
            name,
            record_type,
        ),
        judged(response, name, record_type) matches VerdictView::Answer(found) ==> {
            &&& selection::selection(
                response.answers,
                |r: RecordView|
                    name::same_name(r.name, name) && r.data.record_type() == record_type,
                |r: RecordView| r,
                found,
            )
            &&& forall|i: int|
                0 <= i < response.answers.len() ==> {
                    let r = #[trigger] response.answers[i];
                    found.contains(r) <==> name::same_name(r.name, name) && r.data.record_type()
                        == record_type
                }
            &&& forall|k: int|
                0 <= k < found.len() ==> response.answers.contains(#[trigger] found[k])
        },
{
    let keep = |r: RecordView|
        name::same_name(r.name, name) && r.data.record_type() == record_type;
    let give = |r: RecordView| r;
    let found = answering(response.answers, name, record_type);
    lemma_answering(response.answers, name, record_type);
    selection::lemma_selection_holds(response.answers, keep, give, found);
    assert forall|i: int| 0 <= i < response.answers.len() implies {
        let r = #[trigger] response.answers[i];
        found.contains(r) <==> keep(r)
    } by {
        let r = response.answers[i];
        if found.contains(r) {
            let k = choose|k: int| 0 <= k < found.len() && found[k] == r;
            assert(found[k] == r);
            let j = choose|j: int|
                0 <= j < response.answers.len() && keep(#[trigger] response.answers[j]) && found[k]
                    == give(response.answers[j]);
            assert(keep(response.answers[j]));
        }
        if keep(r) {
            assert(found.contains(give(r)));
        }
    }
}

/// A response without the records asked for is taken for an alias if its answer section holds an
/// alias record of the name; the first of them counts. Otherwise the response code decides, if it
/// says that the name does not exist or that the server failed. Otherwise start-of-authority
/// records among the authorities say that there are no such records, and all of them are taken. A
/// referral is what none of this holds of.
pub proof fn law_verdicts_in_their_order(
    response: MessageView,
    name: Seq<Seq<u8>>,
    record_type: u16,
)
    requires
        !holds_record_of(response.answers, name, record_type),
    ensures
        holds_record_of(response.answers, name, 5) ==> exists|i: int|
            {
                let r = #[trigger] response.answers[i];
                &&& 0 <= i < response.answers.len()
                &&& name::same_name(r.name, name) && r.data.record_type() == 5
                &&& forall|j: int|
                    0 <= j < i ==> !(name::same_name((#[trigger] response.answers[j]).name, name)
                        && response.answers[j].data.record_type() == 5)
                &&& judged(response, name, record_type) == match r.data {
                    RDataView::CNAME(target) => VerdictView::Alias { record: r, target },
                    _ => VerdictView::EmptyAlias,
                }
            },
        !holds_record_of(response.answers, name, 5) ==> {
            let v = judged(response, name, record_type);
            let denied = exists|i: int|
                0 <= i < response.authorities.len() && (
                #[trigger] response.authorities[i]).data.record_type() == 6;
            &&& v is NxDomain <==> response.header.response_code == 3
            &&& v is ServFail <==> response.header.response_code == 2
            &&& response.header.response_code != 3 && response.header.response_code != 2 ==> {
                &&& v is NoData <==> denied
                &&& v is Referral <==> !denied
            }
            &&& v matches VerdictView::NoData(found) ==> selection::selection(
                response.authorities,
                |r: RecordView| r.data.record_type() == 6,
                |r: RecordView| r,
                found,
            )
        },
{
    lemma_answering(response.answers, name, record_type);
    lemma_answering(response.answers, name, 5);
    let keep = |r: RecordView| name::same_name(r.name, name) && r.data.record_type() == 5;
    let give = |r: RecordView| r;
    let aliases = answering(response.answers, name, record::TYPE_CNAME);
    if holds_record_of(response.answers, name, 5) {
        let at = choose|at: Seq<int>|
            {
                &&& #[trigger] selection::positions(response.answers, keep, at)
                &&& aliases.len() == at.len()
                &&& forall|k: int|
                    0 <= k < aliases.len() ==> #[trigger] aliases[k] == give(
                        response.answers[at[k]],
                    )
            };
        let i = at[0];
        assert(aliases[0] == response.answers[i]);
        assert(keep(response.answers[i]));
        assert forall|j: int| 0 <= j < i implies !(name::same_name(
            (#[trigger] response.answers[j]).name,
            name,
        ) && response.answers[j].data.record_type() == 5) by {
            if keep(response.answers[j]) {
                assert(at.contains(j));
                let k = choose|k: int| 0 <= k < at.len() && at[k] == j;
                if k > 0 {
                    assert(at[0] < at[k]);
                }
            }
        }
    }
    let soa = |r: RecordView| r.data.record_type() == 6;
    let authorities = authority_records(response.authorities);
    selection::lemma_filter_is_selection(
        response.authorities,
        |r: RecordView| r.data.record_type() == record::TYPE_SOA,
        soa,
    );
    selection::lemma_selection_holds(response.authorities, soa, give, authorities);
    if exists|i: int|
        0 <= i < response.authorities.len() && (
        #[trigger] response.authorities[i]).data.record_type() == 6 {
        let i = choose|i: int|
            0 <= i < response.authorities.len() && (
            #[trigger] response.authorities[i]).data.record_type() == 6;
        assert(soa(response.authorities[i]));
    }
    if authorities.len() > 0 {
        let i = choose|i: int|
            0 <= i < response.authorities.len() && soa(#[trigger] response.authorities[i]);
        assert(response.authorities[i].data.record_type() == 6);
    }
}

proof fn lemma_server_names(records: Seq<RecordView>)
    ensures
        selection::selection(
            records,
            |r: RecordView| r.data is NS,
            |r: RecordView| r.data->NS_0,
            server_names(records),
        ),
    decreases records.len(),
{
    let keep = |r: RecordView| r.data is NS;
    let give = |r: RecordView| r.data->NS_0;
    if records.len() == 0 {
        selection::lemma_selection_empty(records, keep, give);
        assert(server_names(records) =~= Seq::<Seq<Seq<u8>>>::empty());
    } else {
        let (rest, last) = (records.drop_last(), records.last());
        lemma_server_names(rest);
        selection::lemma_selection_push(rest, last, keep, give, server_names(rest));
        assert(rest.push(last) =~= records);
    }
}

/// Some record of a list names a server by this name, in any spelling.
pub open spec fn names_server(records: Seq<RecordView>, n: Seq<Seq<u8>>) -> bool {
    exists|i: int|
        0 <= i < records.len() && (#[trigger] records[i]).data is NS && name::same_name(
            records[i].data->NS_0,
            n,
        )
}

/// The address in address data, at port 53.
pub open spec fn address_in(data: RDataView) -> SocketAddr {
    if data is A {
        SocketAddr::V4 { ip: data->A_0, port: 53 }
    } else {
        SocketAddr::V6 { ip: data->AAAA_0, port: 53, flow_info: 0, scope_id: 0 }
    }
}

proof fn lemma_listed(records: Seq<RecordView>, n: Seq<Seq<u8>>)
    ensures
        listed(server_names(records), n) <==> names_server(records, n),
{
    let keep = |r: RecordView| r.data is NS;
    let give = |r: RecordView| r.data->NS_0;
    let names = server_names(records);
    lemma_server_names(records);
    selection::lemma_selection_holds(records, keep, give, names);
    if listed(names, n) {
        let k = choose|k: int| 0 <= k < names.len() && name::same_name(#[trigger] names[k], n);
        let i = choose|i: int|
            0 <= i < records.len() && keep(#[trigger] records[i]) && names[k] == give(records[i]);
        assert(records[i].data is NS);
    }
    if names_server(records, n) {
        let i = choose|i: int|
            0 <= i < records.len() && (#[trigger] records[i]).data is NS && name::same_name(
                records[i].data->NS_0,
                n,
            );
        assert(keep(records[i]));
        assert(names.contains(give(records[i])));
        let k = choose|k: int| 0 <= k < names.len() && names[k] == give(records[i]);
        assert(name::same_name(names[k], n));
    }
}

proof fn lemma_addresses_of(records: Seq<RecordView>, authorities: Seq<RecordView>)
    ensures
        selection::selection(
            records,
            |r: RecordView|
                (r.data is A || r.data is AAAA) && names_server(authorities, r.name),
            |r: RecordView| address_in(r.data),
            addresses_of(records, server_names(authorities)),
        ),
    decreases records.len(),
{
    let keep = |r: RecordView|
        (r.data is A || r.data is AAAA) && names_server(authorities, r.name);
    let give = |r: RecordView| address_in(r.data);
    let names = server_names(authorities);
    if records.len() == 0 {
        selection::lemma_selection_empty(records, keep, give);
        assert(addresses_of(records, names) =~= Seq::<SocketAddr>::empty());
    } else {
        let (rest, last) = (records.drop_last(), records.last());
        lemma_addresses_of(rest, authorities);
        lemma_listed(authorities, last.name);
        selection::lemma_selection_push(rest, last, keep, give, addresses_of(rest, names));
        assert(rest.push(last) =~= records);
    }
}

/// A referral names the server of every name server record among the authorities, one for each and
/// in their order, and comes with the address, at port 53, of every additional address record whose
/// owner is one of these servers, in any spelling, one for each and in their order.
pub proof fn law_referrals_name_every_server(
    response: MessageView,
    name: Seq<Seq<u8>>,
    record_type: u16,
)
    ensures
        judged(response, name, record_type) matches VerdictView::Referral { servers, addresses }
            ==> {
            &&& selection::selection(
                response.authorities,
                |r: RecordView| r.data is NS,
                |r: RecordView| r.data->NS_0,
                servers,
            )
            &&& selection::selection(
                response.additionals,
                |r: RecordView|
                    (r.data is A || r.data is AAAA) && names_server(
                        response.authorities,
                        r.name,
                    ),
                |r: RecordView| address_in(r.data),
                addresses,
            )
            &&& forall|i: int|
                0 <= i < response.authorities.len() && (
                #[trigger] response.authorities[i]).data is NS ==> servers.contains(
                    response.authorities[i].data->NS_0,
                )
            &&& forall|i: int, j: int|
                0 <= i < response.additionals.len() && 0 <= j < response.authorities.len() && ((
                #[trigger] response.additionals[i]).data is A
                    || response.additionals[i].data is AAAA)
                    && (#[trigger] response.authorities[j]).data is NS && name::same_name(
                    response.authorities[j].data->NS_0,
                    response.additionals[i].name,
                ) ==> addresses.contains(address_in(response.additionals[i].data))
        },
{
    let (authorities, additionals) = (response.authorities, response.additionals);
    let servers = server_names(authorities);
    let addresses = addresses_of(additionals, servers);
    let is_ns = |r: RecordView| r.data is NS;
    let server = |r: RecordView| r.data->NS_0;
    let glue = |r: RecordView|
        (r.data is A || r.data is AAAA) && names_server(authorities, r.name);
    let address = |r: RecordView| address_in(r.data);
    lemma_server_names(authorities);
    lemma_addresses_of(additionals, authorities);
    selection::lemma_selection_holds(authorities, is_ns, server, servers);
    selection::lemma_selection_holds(additionals, glue, address, addresses);
    assert forall|i: int|
        0 <= i < authorities.len() && (
        #[trigger] authorities[i]).data is NS implies servers.contains(
        authorities[i].data->NS_0,
    ) by {
        assert(is_ns(authorities[i]));
        assert(servers.contains(server(authorities[i])));
    }
    assert forall|i: int, j: int|
        0 <= i < additionals.len() && 0 <= j < authorities.len() && ((
        #[trigger] additionals[i]).data is A || additionals[i].data is AAAA) && (
        #[trigger] authorities[j]).data is NS && name::same_name(
            authorities[j].data->NS_0,
            additionals[i].name,
        ) implies addresses.contains(address_in(additionals[i].data)) by {
        assert(glue(additionals[i]));
        assert(addresses.contains(address(additionals[i])));
    }
}

/// What verdicts stand for leaves nothing of them out.
pub proof fn law_views_of_verdicts_leave_nothing_out(verdict: Verdict)
    ensures
        match verdict {
            Verdict::Answer(records) => verdict@ == VerdictView::Answer(
                record::records_view(records@),
            ),
            Verdict::Alias { record, target } => verdict@ == (VerdictView::Alias {
                record: record@,
                target: target@,
            }),
            Verdict::EmptyAlias => verdict@ is EmptyAlias,
            Verdict::NxDomain => verdict@ is NxDomain,
            Verdict::ServFail => verdict@ is ServFail,
            Verdict::NoData(records) => verdict@ == VerdictView::NoData(
                record::records_view(records@),
            ),
            Verdict::Referral { servers, addresses } => {
                &&& verdict@ is Referral
                &&& verdict@->addresses == addresses@
                &&& verdict@->servers.len() == servers@.len()
                &&& forall|i: int|
                    0 <= i < servers@.len() ==> #[trigger] verdict@->servers[i] == servers@[i]@
            },
        },
{
}

} // verus!
