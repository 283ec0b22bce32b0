//! Resource records, questions and server addresses.
use crate::name;
use crate::name::Name;
use hickory_proto::op::Query as WireQuery;
use hickory_proto::rr::rdata::SOA as WireSoa;
use hickory_proto::rr::rdata::{A as WireA, AAAA as WireAaaa, CNAME as WireCname, NS as WireNs};
use hickory_proto::rr::Name as WireName;
use hickory_proto::rr::RData as WireData;
use hickory_proto::rr::RData::{
    Update0 as EmptyData, A as AData, AAAA as AaaaData, CNAME as CnameData, NS as NsData,
    SOA as SoaData,
};
use hickory_proto::rr::Record as WireRecord;
use vstd::prelude::*;

verus! {

/// Type code of IPv4 address records.
pub const TYPE_A: u16 = 1;

/// Type code of name server records.
pub const TYPE_NS: u16 = 2;

/// Type code of alias records.
pub const TYPE_CNAME: u16 = 5;

/// Type code of start-of-authority records.
pub const TYPE_SOA: u16 = 6;

/// Type code of IPv6 address records.
pub const TYPE_AAAA: u16 = 28;

/// Type code of message signatures.
pub const TYPE_SIG: u16 = 24;

/// Type code of extended options.
pub const TYPE_OPT: u16 = 41;

/// Type code of transaction signatures.
pub const TYPE_TSIG: u16 = 250;

/// Class code of the Internet.
pub const CLASS_IN: u16 = 1;

/// The start-of-authority data of `hickory_proto`, carried from message to message.
#[verifier::external_type_specification]
#[verifier::external_body]
pub struct ExWireSoa(WireSoa);

/// The record data of `hickory_proto`, carried from message to message.
#[verifier::external_type_specification]
#[verifier::external_body]
pub struct ExWireData(WireData);

/// `Clone` of `hickory_proto`'s start-of-authority data, which copies it field by field: the
/// copy is claimed to be the same value.
pub assume_specification[ <WireSoa as Clone>::clone ](s: &WireSoa) -> (r: WireSoa)
    ensures
        r == *s,
;

/// `Clone` of `hickory_proto`'s record data, which copies it field by field: the copy is
/// claimed to be the same value.
pub assume_specification[ <WireData as Clone>::clone ](d: &WireData) -> (r: WireData)
    ensures
        r == *d,
;

/// The TTL of negative answers in start-of-authority data of `hickory_proto`.
pub uninterp spec fn wire_minimum(soa: WireSoa) -> u32;

/// Reads the field `minimum` of `hickory_proto`'s start-of-authority data.
#[verifier::external_body]
fn read_minimum(soa: &WireSoa) -> (r: u32)
    ensures
        r == wire_minimum(*soa),
{
    soa.minimum
}

/// The type code of record data of `hickory_proto`.
pub uninterp spec fn wire_type(data: WireData) -> u16;

/// The type code of data, by `hickory_proto`'s `RData::record_type`. It is claimed that it
/// depends on the data alone.
#[verifier::external_body]
fn read_type(data: &WireData) -> (r: u16)
    ensures
        r == wire_type(*data),
{
    data.record_type().into()
}

/// Start-of-authority data as it came in a message. Of its fields the resolver reads one.
#[derive(Debug)]
pub struct Soa(WireSoa);

impl Soa {
    /// The TTL of negative answers that the zone asks for.
    pub closed spec fn minimum_spec(&self) -> u32 {
        wire_minimum(self.0)
    }

    /// The TTL of negative answers that the zone asks for.
    pub fn minimum(&self) -> (r: u32)
        ensures
            r == self.minimum_spec(),
    {
        read_minimum(&self.0)
    }
}

impl Clone for Soa {
    fn clone(&self) -> (r: Self)
        ensures
            r == *self,
    {
        Soa(self.0.clone())
    }
}

/// Data of a kind that the resolver does not look into, as it came in a message.
#[derive(Debug)]
pub struct Unread(WireData);

impl Unread {
    /// The type code of the record.
    pub closed spec fn record_type_spec(&self) -> u16 {
        wire_type(self.0)
    }

    /// The type code of the record.
    pub fn record_type(&self) -> (r: u16)
        ensures
            r == self.record_type_spec(),
    {
        read_type(&self.0)
    }
}

impl Clone for Unread {
    fn clone(&self) -> (r: Self)
        ensures
            r == *self,
    {
        Unread(self.0.clone())
    }
}

/// The data of a resource record.
#[derive(Debug)]
pub enum RData {
    /// An IPv4 address.
    A(u32),
    /// An IPv6 address.
    AAAA(u128),
    /// The name that the owner is an alias of.
    CNAME(Name),
    /// A name server of the owner's zone.
    NS(Name),
    /// The start of a zone of authority.
    SOA(Soa),
    /// Nothing: a record of a type, without data.
    Empty(u16),
    /// Anything else.
    Other(Unread),
}

/// What [`RData`] stands for.
pub enum RDataView {
    A(u32),
    AAAA(u128),
    CNAME(Seq<Seq<u8>>),
    NS(Seq<Seq<u8>>),
    SOA(Soa),
    Empty(u16),
    Other(Unread),
}

impl View for RData {
    type V = RDataView;

    open spec fn view(&self) -> RDataView {
        match self {
            RData::A(ip) => RDataView::A(*ip),
            RData::AAAA(ip) => RDataView::AAAA(*ip),
            RData::CNAME(n) => RDataView::CNAME(n@),
            RData::NS(n) => RDataView::NS(n@),
            RData::SOA(s) => RDataView::SOA(*s),
            RData::Empty(record_type) => RDataView::Empty(*record_type),
            RData::Other(d) => RDataView::Other(*d),
        }
    }
}

impl RDataView {
    /// The type code of a record with this data.
    pub open spec fn record_type(self) -> u16 {
        match self {
            RDataView::A(_) => TYPE_A,
            RDataView::AAAA(_) => TYPE_AAAA,
            RDataView::CNAME(_) => TYPE_CNAME,
            RDataView::NS(_) => TYPE_NS,
            RDataView::SOA(_) => TYPE_SOA,
            RDataView::Empty(record_type) => record_type,
            RDataView::Other(d) => d.record_type_spec(),
        }
    }

    /// The names in the data can stand in a message.
    pub open spec fn wf(self) -> bool {
        match self {
            RDataView::CNAME(n) => name::valid_labels(n),
            RDataView::NS(n) => name::valid_labels(n),
            _ => true,
        }
    }

    /// The server at the address that the data holds, if it holds one.
    pub open spec fn server(self) -> Option<SocketAddr> {
        match self {
            RDataView::A(ip) => Some(SocketAddr::V4 { ip, port: DNS_PORT }),
            RDataView::AAAA(ip) => Some(
                SocketAddr::V6 { ip, port: DNS_PORT, flow_info: 0, scope_id: 0 },
            ),
            _ => None,
        }
    }
}

impl RData {
    /// The type code of a record with this data.
    pub fn record_type(&self) -> (r: u16)
        ensures
            r == self@.record_type(),
    {
        match self {
            RData::A(_) => TYPE_A,
            RData::AAAA(_) => TYPE_AAAA,
            RData::CNAME(_) => TYPE_CNAME,
            RData::NS(_) => TYPE_NS,
            RData::SOA(_) => TYPE_SOA,
            RData::Empty(record_type) => *record_type,
            RData::Other(d) => d.record_type(),
        }
    }

    /// The server at the address that the data holds, if it holds one.
    pub fn server(&self) -> (r: Option<SocketAddr>)
        ensures
            r == self@.server(),
    {
        match self {
            RData::A(ip) => Some(SocketAddr::V4 { ip: *ip, port: DNS_PORT }),
            RData::AAAA(ip) => Some(
                SocketAddr::V6 { ip: *ip, port: DNS_PORT, flow_info: 0, scope_id: 0 },
            ),
            _ => None,
        }
    }
}

impl Clone for RData {
    fn clone(&self) -> (r: Self)
        ensures
            r@ == self@,
    {
        match self {
            RData::A(ip) => RData::A(*ip),
            RData::AAAA(ip) => RData::AAAA(*ip),
            RData::CNAME(n) => RData::CNAME(n.clone()),
            RData::NS(n) => RData::NS(n.clone()),
            RData::SOA(s) => RData::SOA(s.clone()),
            RData::Empty(record_type) => RData::Empty(*record_type),
            RData::Other(d) => RData::Other(d.clone()),
        }
    }
}

/// A resource record.
#[derive(Debug)]
pub struct Record {
    pub name: Name,
    pub class: u16,
    /// How long the record may be kept, in seconds.
    pub ttl: u32,
    pub data: RData,
}

/// What a [`Record`] stands for.
pub struct RecordView {
    pub name: Seq<Seq<u8>>,
    pub class: u16,
    pub ttl: u32,
    pub data: RDataView,
}

impl View for Record {
    type V = RecordView;

    open spec fn view(&self) -> RecordView {
        RecordView { name: self.name@, class: self.class, ttl: self.ttl, data: self.data@ }
    }
}

impl RecordView {
    /// The names of the record can stand in a message.
    pub open spec fn wf(self) -> bool {
        name::valid_labels(self.name) && self.data.wf()
    }

    /// The record belongs to a name and is of a type.
    pub open spec fn answers(self, name: Seq<Seq<u8>>, record_type: u16) -> bool {
        name::same_name(self.name, name) && self.data.record_type() == record_type
    }
}

impl Record {
    /// Whether the record belongs to a name and is of a type.
    pub fn answers(&self, name: &Name, record_type: u16) -> (r: bool)
        ensures
            r == self@.answers(name@, record_type),
    {
        self.data.record_type() == record_type && self.name.same(name)
    }
}

impl Clone for Record {
    fn clone(&self) -> (r: Self)
        ensures
            r@ == self@,
    {
        Record {
            name: self.name.clone(),
            class: self.class,
            ttl: self.ttl,
            data: self.data.clone(),
        }
    }
}

/// What a list of records stands for.
pub open spec fn records_view(records: Seq<Record>) -> Seq<RecordView> {
    records.map_values(|r: Record| r@)
}

/// Every record of a list can stand in a message.
pub open spec fn records_wf(records: Seq<RecordView>) -> bool {
    forall|i: int| 0 <= i < records.len() ==> (#[trigger] records[i]).wf()
}

/// Copies a list of records.
pub fn clone_records(records: &Vec<Record>) -> (r: Vec<Record>)
    ensures
        records_view(r@) == records_view(records@),
{
    let mut copy: Vec<Record> = Vec::new();
    for i in 0..records.len()
        invariant
            copy@.len() == i,
            forall|j: int| 0 <= j < i ==> (#[trigger] copy@[j])@ == records@[j]@,
    {
        copy.push(records[i].clone());
    }
    assert(records_view(copy@) =~= records_view(records@));
    copy
}

/// One section of a message of `hickory_proto`: a list of its records.
#[verifier::external_body]
pub struct Section {
    pub(crate) records: Vec<WireRecord>,
}

/// What the records of a section stand for, in their order.
pub uninterp spec fn section_records(section: Section) -> Seq<RecordView>;

/// Hands out the records of a section of `hickory_proto`, each by its fields: owner name, class,
/// TTL and data, the labels of names by `Name::iter`. It is claimed that the fields are those of
/// the section's records, in order, and that their names are names that the DNS allows.
#[verifier::external_body]
pub(crate) fn read_section(section: Section) -> (r: Vec<Record>)
    ensures
        records_view(r@) == section_records(section),
        records_wf(records_view(r@)),
{
    let name = |n: &WireName| Name { labels: n.iter().map(Vec::from).collect() };
    section.records.into_iter().map(|r| Record {
        name: name(&r.name),
        class: r.dns_class.into(),
        ttl: r.ttl,
        data: match r.data {
            AData(a) => RData::A(a.0.into()),
            AaaaData(a) => RData::AAAA(a.0.into()),
            CnameData(n) => RData::CNAME(name(&n)),
            NsData(n) => RData::NS(name(&n)),
            SoaData(s) => RData::SOA(Soa(s)),
            EmptyData(t) => RData::Empty(t.into()),
            d => RData::Other(Unread(d)),
        },
    }).collect()
}

/// Makes a section of `hickory_proto` of records, each from its fields by `Record::from_rdata`,
/// with names by `Name::from_labels`. It is claimed that the section holds those records, in
/// order.
#[verifier::external_body]
pub(crate) fn write_section(records: Vec<Record>) -> (r: Section)
    requires
        records_wf(records_view(records@)),
    ensures
        section_records(r) == records_view(records@),
{
    let name = |n: Name| WireName::from_labels(n.labels).unwrap();
    Section { records: records.into_iter().map(|r| {
        let mut wire = WireRecord::from_rdata(name(r.name), r.ttl, match r.data {
            RData::A(a) => AData(WireA(a.into())),
            RData::AAAA(a) => AaaaData(WireAaaa(a.into())),
            RData::CNAME(n) => CnameData(WireCname(name(n))),
            RData::NS(n) => NsData(WireNs(name(n))),
            RData::SOA(s) => SoaData(s.0),
            RData::Empty(t) => EmptyData(t.into()),
            RData::Other(d) => d.0
        });
        wire.dns_class = r.class.into();
        wire
    }).collect() }
}

/// The question of a message.
#[derive(Debug)]
pub struct Query {
    pub name: Name,
    pub query_type: u16,
    pub query_class: u16,
}

/// What a [`Query`] stands for.
pub struct QueryView {
    pub name: Seq<Seq<u8>>,
    pub query_type: u16,
    pub query_class: u16,
}

impl View for Query {
    type V = QueryView;

    open spec fn view(&self) -> QueryView {
        QueryView {
            name: self.name@,
            query_type: self.query_type,
            query_class: self.query_class,
        }
    }
}

impl QueryView {
    /// The name can stand in a message.
    pub open spec fn wf(self) -> bool {
        name::valid_labels(self.name)
    }
}

impl Clone for Query {
    fn clone(&self) -> (r: Self)
        ensures
            r@ == self@,
    {
        Query {
            name: self.name.clone(),
            query_type: self.query_type,
            query_class: self.query_class,
        }
    }
}

/// What a list of questions stands for.
pub open spec fn queries_view(queries: Seq<Query>) -> Seq<QueryView> {
    queries.map_values(|q: Query| q@)
}

/// The question of `hickory_proto`.
#[verifier::external_type_specification]
#[verifier::external_body]
pub struct ExWireQuery(WireQuery);

/// What a question of `hickory_proto` asks.
pub uninterp spec fn wire_query(query: WireQuery) -> QueryView;

/// What a list of questions of `hickory_proto` asks.
pub open spec fn wire_queries(queries: Seq<WireQuery>) -> Seq<QueryView> {
    queries.map_values(|q: WireQuery| wire_query(q))
}

/// Hands out a question of `hickory_proto` by its fields: name, its labels by `Name::iter`, type
/// and class. It is claimed that the fields are those of the question, and that the name is one
/// that the DNS allows.
#[verifier::external_body]
fn read_query(query: &WireQuery) -> (r: Query)
    ensures
        r@ == wire_query(*query),
        r@.wf(),
{
    Query {
        name: Name { labels: query.name.iter().map(Vec::from).collect() },
        query_type: query.query_type.into(),
        query_class: query.query_class.into(),
    }
}

/// Makes a question of `hickory_proto` of its fields, by `Query::query` and
/// `Query::set_query_class`, with its name by `Name::from_labels`. It is claimed that the
/// question has those fields.
#[verifier::external_body]
fn write_query(query: &Query) -> (r: WireQuery)
    requires
        query@.wf(),
    ensures
        wire_query(r) == query@,
{
    let name = WireName::from_labels(query.name.labels.clone()).unwrap();
    let mut wire = WireQuery::query(name, query.query_type.into());
    wire.set_query_class(query.query_class.into());
    wire
}

/// Hands out questions of `hickory_proto`.
pub(crate) fn read_queries(queries: &Vec<WireQuery>) -> (r: Vec<Query>)
    ensures
        queries_view(r@) == wire_queries(queries@),
        forall|i: int| 0 <= i < r@.len() ==> (#[trigger] r@[i])@.wf(),
{
    let mut out: Vec<Query> = Vec::new();
    for i in 0..queries.len()
        invariant
            out@.len() == i,
            forall|j: int|
                0 <= j < i ==> (#[trigger] out@[j])@ == wire_query(queries@[j]) && out@[j]@.wf(),
    {
        out.push(read_query(&queries[i]));
    }
    assert(queries_view(out@) =~= wire_queries(queries@));
    out
}

/// Makes questions of `hickory_proto`.
pub(crate) fn write_queries(queries: &Vec<Query>) -> (r: Vec<WireQuery>)
    requires
        forall|i: int| 0 <= i < queries@.len() ==> (#[trigger] queries@[i])@.wf(),
    ensures
        wire_queries(r@) == queries_view(queries@),
{
    let mut out: Vec<WireQuery> = Vec::new();
    for i in 0..queries.len()
        invariant
            forall|j: int| 0 <= j < queries@.len() ==> (#[trigger] queries@[j])@.wf(),
            out@.len() == i,
            forall|j: int| 0 <= j < i ==> wire_query(#[trigger] out@[j]) == queries@[j]@,
    {
        out.push(write_query(&queries[i]));
    }
    assert(wire_queries(out@) =~= queries_view(queries@));
    out
}

/// The port that name servers listen on.
pub const DNS_PORT: u16 = 53;

/// The address of a server: the IP address as a number, most significant octet first, and the
/// port.
#[derive(Debug, Clone, Copy, PartialEq, Eq, Hash, Structural)]
#[allow(inconsistent_fields)]
pub enum SocketAddr {
    V4 { ip: u32, port: u16 },
    V6 { ip: u128, port: u16, flow_info: u32, scope_id: u32 },
}

/// The type codes are those that the DNS assigns, and data that is not looked into has the code
/// that it came with.
pub proof fn law_type_codes(data: RDataView)
    ensures
        data is A ==> data.record_type() == 1,
        data is NS ==> data.record_type() == 2,
        data is CNAME ==> data.record_type() == 5,
        data is SOA ==> data.record_type() == 6,
        data is AAAA ==> data.record_type() == 28,
        data is Empty ==> data.record_type() == data->Empty_0,
        data is Other ==> data.record_type() == data->Other_0.record_type_spec(),
        TYPE_A == 1 && TYPE_NS == 2 && TYPE_CNAME == 5 && TYPE_SOA == 6 && TYPE_AAAA == 28,
        CLASS_IN == 1,
{
}

/// What is read of data that is carried along is what came with it.
proof fn law_carried_data_is_read_as_it_is(soa: Soa, data: Unread)
    ensures
        soa.minimum_spec() == wire_minimum(soa.0),
        data.record_type_spec() == wire_type(data.0),
{
}

/// An address, and nothing else, is that of a server, at port 53.
pub proof fn law_addresses_are_servers(data: RDataView)
    ensures
        data is A ==> data.server() == Some(SocketAddr::V4 { ip: data->A_0, port: 53 }),
        data is AAAA ==> data.server() == Some(
            SocketAddr::V6 { ip: data->AAAA_0, port: 53, flow_info: 0, scope_id: 0 },
        ),
        !(data is A) && !(data is AAAA) ==> data.server() is None,
{
}

/// A record answers for a name and a type if and only if its owner is that name, in any spelling,
/// and its type code is that type, whatever it is.
pub proof fn law_records_answer_by_owner_and_type(
    r: RecordView,
    name: Seq<Seq<u8>>,
    record_type: u16,
)
    ensures
        r.answers(name, record_type) <==> name::same_name(r.name, name) && r.data.record_type()
            == record_type,
{
}

/// A record can stand in a message if and only if its owner, and the name in its data if there is
/// one, are names that the DNS allows.
pub proof fn law_records_with_allowed_names_can_stand(r: RecordView, q: QueryView)
    ensures
        r.wf() <==> name::valid_labels(r.name) && (r.data is CNAME ==> name::valid_labels(
            r.data->CNAME_0,
        )) && (r.data is NS ==> name::valid_labels(r.data->NS_0)),
        q.wf() <==> name::valid_labels(q.name),
{
}

/// What records and questions stand for leaves nothing of them out.
pub proof fn law_views_of_records_leave_nothing_out(records: Seq<Record>, queries: Seq<Query>)
    ensures
        records_view(records).len() == records.len(),
        forall|i: int|
            0 <= i < records.len() ==> {
                let (r, v) = (records[i], #[trigger] records_view(records)[i]);
                &&& v.name == r.name@
                &&& v.class == r.class
                &&& v.ttl == r.ttl
                &&& match r.data {
                    RData::A(ip) => v.data == RDataView::A(ip),
                    RData::AAAA(ip) => v.data == RDataView::AAAA(ip),
                    RData::CNAME(n) => v.data == RDataView::CNAME(n@),
                    RData::NS(n) => v.data == RDataView::NS(n@),
                    RData::SOA(s) => v.data == RDataView::SOA(s),
                    RData::Empty(t) => v.data == RDataView::Empty(t),
                    RData::Other(d) => v.data == RDataView::Other(d),
                }
            },
        queries_view(queries).len() == queries.len(),
        forall|i: int|
            0 <= i < queries.len() ==> {
                let (q, v) = (queries[i], #[trigger] queries_view(queries)[i]);
                &&& v.name == q.name@
                &&& v.query_type == q.query_type
                &&& v.query_class == q.query_class
            },
{
}

} // verus!
