//! The parts of a DNS message that the plugins read and change, and the
//! per-query context that plugins share.

use vstd::prelude::*;
use crate::ip::IpAddr;

verus! {

/// Record type numbers used by the plugins.
pub const TYPE_A: u16 = 1;
pub const TYPE_NS: u16 = 2;
pub const TYPE_CNAME: u16 = 5;
pub const TYPE_PTR: u16 = 12;
pub const TYPE_MX: u16 = 15;
pub const TYPE_TXT: u16 = 16;
pub const TYPE_AAAA: u16 = 28;
pub const TYPE_OPT: u16 = 41;
pub const TYPE_SVCB: u16 = 64;
pub const TYPE_HTTPS: u16 = 65;

/// Class IN.
pub const CLASS_IN: u16 = 1;

/// Response codes.
pub const RCODE_NOERROR: u8 = 0;
pub const RCODE_SERVFAIL: u8 = 2;
pub const RCODE_NXDOMAIN: u8 = 3;
pub const RCODE_REFUSED: u8 = 5;

/// Record data, as far as the plugins look into it.
#[derive(Debug, Clone, PartialEq, Eq)]
pub enum RData {
    /// An IPv4 address
    A(u32),
    /// An IPv6 address
    AAAA(u128),
    /// A domain name (CNAME, PTR, NS)
    Name(String),
    /// An EDNS0 OPT pseudo-record with its flags word
    Opt { flags: u16 },
    /// Anything else, kept as raw bytes
    Other(Vec<u8>),
}

/// A resource record.
#[derive(Debug, Clone)]
pub struct Record {
    pub name: String,
    pub rtype: u16,
    pub class: u16,
    pub ttl: u32,
    pub rdata: RData,
}

/// A question.
#[derive(Debug, Clone)]
pub struct Question {
    pub qname: String,
    pub qtype: u16,
    pub qclass: u16,
}

/// A DNS message.
#[derive(Debug, Clone)]
pub struct Message {
    pub id: u16,
    pub is_response: bool,
    pub rcode: u8,
    pub authentic_data: bool,
    pub checking_disabled: bool,
    pub authoritative: bool,
    pub recursion_available: bool,
    pub questions: Vec<Question>,
    pub answers: Vec<Record>,
    pub authority: Vec<Record>,
    pub additional: Vec<Record>,
}

impl Message {
    /// An empty query message with id 0.
    pub fn new() -> (m: Message)
        ensures
            m.id == 0,
            !m.is_response,
            m.rcode == RCODE_NOERROR,
            !m.authentic_data,
            !m.checking_disabled,
            !m.authoritative,
            !m.recursion_available,
            m.questions@.len() == 0,
            m.answers@.len() == 0,
            m.authority@.len() == 0,
            m.additional@.len() == 0,
    {
        Message {
            id: 0,
            is_response: false,
            rcode: RCODE_NOERROR,
            authentic_data: false,
            checking_disabled: false,
            authoritative: false,
            recursion_available: false,
            questions: Vec::new(),
            answers: Vec::new(),
            authority: Vec::new(),
            additional: Vec::new(),
        }
    }
}

/// The state a query carries through the plugin chain: the request, the
/// response when one has been set, and the metadata the plugins here use.
#[derive(Debug)]
pub struct Context {
    pub request: Message,
    pub response: Option<Message>,
    /// Address of the client that sent the query
    pub client_ip: Option<IpAddr>,
    /// Set when the current sequence must stop (the return flag)
    pub returned: bool,
    /// The metadata value that a matcher plugin stored, with its key
    pub tag: Option<(String, String)>,
    /// Lists of `(set, network)` entries stored under a metadata key
    /// (`ipset_added`, `nftset_added_v4`, `nftset_added_v6`).
    pub set_entries: Vec<(String, Vec<(String, String)>)>,
}

impl Context {
    /// A context for `request` with no response and no metadata.
    pub fn new(request: Message) -> (c: Context)
        ensures
            c.request == request,
            c.response is None,
            c.client_ip is None,
            !c.returned,
            c.tag is None,
            c.set_entries@.len() == 0,
    {
        Context { request, response: None, client_ip: None, returned: false, tag: None, set_entries: Vec::new() }
    }
}

/// Whether two record payloads hold the same data.
pub open spec fn rdata_same(a: RData, b: RData) -> bool {
    match (a, b) {
        (RData::Other(x), RData::Other(y)) => x@ == y@,
        (RData::Other(_), _) => false,
        (_, RData::Other(_)) => false,
        _ => a == b,
    }
}

/// Whether two records hold the same data.
pub open spec fn record_same(a: Record, b: Record) -> bool {
    a.name == b.name && a.rtype == b.rtype && a.class == b.class && a.ttl == b.ttl && rdata_same(
        a.rdata,
        b.rdata,
    )
}

/// Whether two record lists hold the same records in the same order.
pub open spec fn records_same(a: Seq<Record>, b: Seq<Record>) -> bool {
    a.len() == b.len() && forall|i: int| 0 <= i < a.len() ==> record_same(#[trigger] a[i], b[i])
}

/// Whether two messages hold the same data.
pub open spec fn message_same(a: Message, b: Message) -> bool {
    &&& a.id == b.id
    &&& a.is_response == b.is_response
    &&& a.rcode == b.rcode
    &&& a.authentic_data == b.authentic_data
    &&& a.checking_disabled == b.checking_disabled
    &&& a.authoritative == b.authoritative
    &&& a.recursion_available == b.recursion_available
    &&& a.questions@ == b.questions@
    &&& records_same(a.answers@, b.answers@)
    &&& records_same(a.authority@, b.authority@)
    &&& records_same(a.additional@, b.additional@)
}

/// A copy of a record payload.
pub fn copy_rdata(r: &RData) -> (c: RData)
    ensures
        rdata_same(*r, c),
{
    match r {
        RData::A(a) => RData::A(*a),
        RData::AAAA(a) => RData::AAAA(*a),
        RData::Name(n) => RData::Name(n.clone()),
        RData::Opt { flags } => RData::Opt { flags: *flags },
        RData::Other(v) => {
            let mut w: Vec<u8> = Vec::new();
            let mut i: usize = 0;
            while i < v.len()
                invariant
                    i <= v@.len(),
                    w@ == v@.take(i as int),
                decreases v.len() - i,
            {
                w.push(v[i]);
                assert(v@.take(i + 1) =~= v@.take(i as int).push(v@[i as int]));
                i = i + 1;
            }
            assert(v@.take(v@.len() as int) =~= v@);
            RData::Other(w)
        },
    }
}

/// A copy of a record.
pub fn copy_record(r: &Record) -> (c: Record)
    ensures
        record_same(*r, c),
{
    Record { name: r.name.clone(), rtype: r.rtype, class: r.class, ttl: r.ttl, rdata: copy_rdata(&r.rdata) }
}

/// A copy of a record list.
pub fn copy_records(v: &Vec<Record>) -> (c: Vec<Record>)
    ensures
        records_same(v@, c@),
{
    let mut c: Vec<Record> = Vec::new();
    let mut i: usize = 0;
    while i < v.len()
        invariant
            i <= v@.len(),
            c@.len() == i,
            forall|j: int| 0 <= j < i ==> record_same(#[trigger] v@[j], c@[j]),
        decreases v.len() - i,
    {
        c.push(copy_record(&v[i]));
        i = i + 1;
    }
    c
}

/// A copy of a question.
pub fn copy_question(q: &Question) -> (c: Question)
    ensures
        c == *q,
{
    Question { qname: q.qname.clone(), qtype: q.qtype, qclass: q.qclass }
}

/// A copy of a question list.
pub fn copy_questions(v: &Vec<Question>) -> (c: Vec<Question>)
    ensures
        c@ == v@,
{
    let mut c: Vec<Question> = Vec::new();
    let mut i: usize = 0;
    while i < v.len()
        invariant
            i <= v@.len(),
            c@ == v@.take(i as int),
        decreases v.len() - i,
    {
        c.push(copy_question(&v[i]));
        assert(v@.take(i + 1) =~= v@.take(i as int).push(v@[i as int]));
        i = i + 1;
    }
    assert(v@.take(v@.len() as int) =~= v@);
    c
}

/// A copy of a message.
pub fn copy_message(m: &Message) -> (c: Message)
    ensures
        message_same(*m, c),
{
    Message {
        id: m.id,
        is_response: m.is_response,
        rcode: m.rcode,
        authentic_data: m.authentic_data,
        checking_disabled: m.checking_disabled,
        authoritative: m.authoritative,
        recursion_available: m.recursion_available,
        questions: copy_questions(&m.questions),
        answers: copy_records(&m.answers),
        authority: copy_records(&m.authority),
        additional: copy_records(&m.additional),
    }
}

} // verus!
