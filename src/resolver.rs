use vstd::prelude::*;
use crate::constants::{DNS_CLASS_IN, DNS_RECORD_TYPE_A, DNS_RECORD_TYPE_NS, LABEL_SEPARATOR};
use crate::error::DnsError;
use crate::header::{header_wire, Header};
use crate::name::{encode_text, push_range, text_wire};
use crate::packet::Packet;
use crate::question::{question_wire, Question, QuestionView};
use crate::record::{records_view, Record, RecordView};

verus! {

/// The address of the root name server that every resolution starts from,
/// 198.41.0.4, in text.
pub open spec fn root_nameserver() -> Seq<u8> {
    seq![49u8, 57, 56, 46, 52, 49, 46, 48, 46, 52]
}

/// The decimal digits of `v`, without leading zeros.
pub open spec fn decimal(v: u8) -> Seq<u8> {
    if v >= 100 {
        seq![(48 + v / 100) as u8, (48 + (v / 10) % 10) as u8, (48 + v % 10) as u8]
    } else if v >= 10 {
        seq![(48 + v / 10) as u8, (48 + v % 10) as u8]
    } else {
        seq![(48 + v) as u8]
    }
}

/// A four-byte address in dotted-decimal text; `None` for a payload of any
/// other length.
pub open spec fn address_text(d: Seq<u8>) -> Option<Seq<u8>> {
    if d.len() != 4 {
        None
    } else {
        Some(
            decimal(d[0]) + seq![LABEL_SEPARATOR] + decimal(d[1]) + seq![LABEL_SEPARATOR]
                + decimal(d[2]) + seq![LABEL_SEPARATOR] + decimal(d[3]),
        )
    }
}

/// Whether a record has type `want`, and a payload where `nonempty` asks.
pub open spec fn selects(r: RecordView, want: u16, nonempty: bool) -> bool {
    r.record_type == want && (nonempty ==> r.data.len() > 0)
}

/// Whether `i` is the first record of `rs` that `selects` picks.
pub open spec fn is_first(rs: Seq<RecordView>, want: u16, nonempty: bool, i: int) -> bool {
    0 <= i < rs.len() && selects(rs[i], want, nonempty) && forall|j: int|
        0 <= j < i ==> !selects(#[trigger] rs[j], want, nonempty)
}

/// The first record of `rs` that `selects` picks, if any.
pub open spec fn first_selected(rs: Seq<RecordView>, want: u16, nonempty: bool) -> Option<
    RecordView,
> {
    if exists|i: int| is_first(rs, want, nonempty, i) {
        Some(rs[choose|i: int| is_first(rs, want, nonempty, i)])
    } else {
        None
    }
}

/// The address that the first address record of `rs` gives.
pub open spec fn first_address(rs: Seq<RecordView>) -> Option<Seq<u8>> {
    match first_selected(rs, DNS_RECORD_TYPE_A, false) {
        Some(r) => address_text(r.data),
        None => None,
    }
}

/// The name that the first name server record of `rs` with a payload gives.
pub open spec fn first_nameserver(rs: Seq<RecordView>) -> Option<Seq<u8>> {
    match first_selected(rs, DNS_RECORD_TYPE_NS, true) {
        Some(r) => Some(r.data),
        None => None,
    }
}

/// The header of an outbound query: recursion not desired, one question.
pub open spec fn query_header() -> Header {
    Header {
        id: 1,
        flags: 0,
        num_questions: 1,
        num_answers: 0,
        num_authorities: 0,
        num_additionals: 0,
    }
}

/// The query message for a name given as text; `None` where a label is too
/// long.
pub open spec fn query_wire(name: Seq<u8>, record_type: u16) -> Option<Seq<u8>> {
    match text_wire(name) {
        Some(w) => Some(
            header_wire(query_header()) + question_wire(
                QuestionView { name: w, qtype: record_type, qclass: DNS_CLASS_IN },
            ),
        ),
        None => None,
    }
}

/// The name with one trailing dot removed, if it has one.
pub open spec fn trim_dot(name: Seq<u8>) -> Seq<u8> {
    if name.len() > 0 && name.last() == LABEL_SEPARATOR {
        name.drop_last()
    } else {
        name
    }
}

/// One round trip to make: which server to ask, about which name and type,
/// and how many more round trips this resolution may make after it.
#[derive(Debug)]
pub struct Query {
    pub nameserver: Vec<u8>,
    pub domain_name: Vec<u8>,
    pub record_type: u16,
    pub hops_left: u32,
}

/// Whether `q` asks `nameserver` about `name` and `record_type`, with
/// `hops` round trips left after it.
pub open spec fn asks(q: Query, nameserver: Seq<u8>, name: Seq<u8>, record_type: u16, hops: int) -> bool {
    q.nameserver@ == nameserver && q.domain_name@ == name && q.record_type == record_type
        && q.hops_left == hops
}

/// What to do after a reply.
#[derive(Debug)]
pub enum Next {
    /// The name has this address.
    Resolved(Vec<u8>),
    /// Ask again, with this query.
    Ask(Query),
    /// Resolve the name server name that this query asks about, from the
    /// root; then go on with `Resolver::resume` and the address that came back.
    Lookup(Query),
    /// The resolution ends without an address.
    Failed(DnsError),
}

/// The decisions of an iterative resolution; the round trips are made by
/// the caller.
pub struct Resolver {}

fn push_decimal(out: &mut Vec<u8>, v: u8)
    ensures
        final(out)@ == old(out)@ + decimal(v),
{
    if v >= 100 {
        out.push(48 + v / 100);
    }
    if v >= 10 {
        out.push(48 + (v / 10) % 10);
    }
    out.push(48 + v % 10);
    assert(final(out)@ =~= old(out)@ + decimal(v));
}

fn copy_bytes(b: &Vec<u8>) -> (r: Vec<u8>)
    ensures
        r@ == b@,
{
    let mut r: Vec<u8> = Vec::new();
    push_range(&mut r, b.as_slice(), 0, b.len());
    assert(b@.subrange(0, b@.len() as int) =~= b@);
    r
}

/// The index of the first record of `rs` that `selects` picks.
fn find_first(rs: &Vec<Record>, want: u16, nonempty: bool) -> (r: Option<usize>)
    ensures
        match r {
            Some(i) => is_first(records_view(rs@), want, nonempty, i as int),
            None => forall|i: int| !#[trigger] is_first(records_view(rs@), want, nonempty, i),
        },
{
    let ghost v = records_view(rs@);
    let mut i: usize = 0;
    while i < rs.len()
        invariant
            i <= rs@.len(),
            v == records_view(rs@),
            forall|j: int| 0 <= j < i ==> !selects(#[trigger] v[j], want, nonempty),
        decreases rs@.len() - i,
    {
        if rs[i].record_type == want && (!nonempty || rs[i].data.len() > 0) {
            return Some(i);
        }
        i = i + 1;
    }
    None
}

/// The first record that `find_first` picks is the one `first_selected` names.
proof fn lemma_first_selected(rs: Seq<RecordView>, want: u16, nonempty: bool, i: int)
    requires
        is_first(rs, want, nonempty, i),
    ensures
        first_selected(rs, want, nonempty) == Some(rs[i]),
{
    let k = choose|k: int| is_first(rs, want, nonempty, k);
    assert(is_first(rs, want, nonempty, k));
    if k < i {
        assert(!selects(rs[k], want, nonempty));
    } else if k > i {
        assert(!selects(rs[i], want, nonempty));
    }
}

fn first_address_in(rs: &Vec<Record>) -> (r: Option<Vec<u8>>)
    ensures
        match first_address(records_view(rs@)) {
            Some(a) => r matches Some(v) && v@ == a,
            None => r is None,
        },
{
    match find_first(rs, DNS_RECORD_TYPE_A, false) {
        Some(i) => {
            proof {
                lemma_first_selected(records_view(rs@), DNS_RECORD_TYPE_A, false, i as int);
            }
            Resolver::parse_ip(rs[i].data.as_slice())
        },
        None => None,
    }
}

impl Resolver {
    /// The query message asking for `record_type` records of `domain_name`:
    /// a header with id 1, recursion not desired and one question, then that
    /// question in the Internet class. Fails where a label is too long.
    pub fn build_query(domain_name: &[u8], record_type: u16) -> (r: Result<Vec<u8>, DnsError>)
        ensures
            match query_wire(domain_name@, record_type) {
                Some(w) => r matches Ok(v) && v@ == w,
                None => r == Err::<Vec<u8>, DnsError>(DnsError::LabelTooLong),
            },
    {
        let qname = match encode_text(domain_name) {
            Ok(w) => w,
            Err(e) => {
                return Err(e);
            },
        };
        let header = Header {
            id: 1,
            flags: 0,
            num_questions: 1,
            num_answers: 0,
            num_authorities: 0,
            num_additionals: 0,
        };
        let question = Question { qname, qtype: record_type, qclass: DNS_CLASS_IN };
        let mut query = header.to_bytes();
        let q = question.to_bytes();
        push_range(&mut query, q.as_slice(), 0, q.len());
        assert(q@.subrange(0, q@.len() as int) =~= q@);
        Ok(query)
    }

    /// Renders a four-byte address payload in dotted-decimal text.
    pub fn parse_ip(data: &[u8]) -> (r: Option<Vec<u8>>)
        ensures
            match address_text(data@) {
                Some(a) => r matches Some(v) && v@ == a,
                None => r is None,
            },
    {
        if data.len() != 4 {
            return None;
        }
        let mut ip: Vec<u8> = Vec::new();
        push_decimal(&mut ip, data[0]);
        ip.push(LABEL_SEPARATOR);
        push_decimal(&mut ip, data[1]);
        ip.push(LABEL_SEPARATOR);
        push_decimal(&mut ip, data[2]);
        ip.push(LABEL_SEPARATOR);
        push_decimal(&mut ip, data[3]);
        assert(ip@ =~= address_text(data@)->Some_0);
        Some(ip)
    }

    /// The address that the first address record of the answer section gives.
    pub fn get_answer(packet: &Packet) -> (r: Option<Vec<u8>>)
        ensures
            match first_address(packet@.answers) {
                Some(a) => r matches Some(v) && v@ == a,
                None => r is None,
            },
    {
        first_address_in(&packet.answers)
    }

    /// The glue address that the first address record of the additional
    /// section gives.
    pub fn get_nameserver_ip(packet: &Packet) -> (r: Option<Vec<u8>>)
        ensures
            match first_address(packet@.additionals) {
                Some(a) => r matches Some(v) && v@ == a,
                None => r is None,
            },
    {
        first_address_in(&packet.additionals)
    }

    /// The name that the first name server record of the authority section
    /// with a payload gives.
    pub fn get_nameserver(packet: &Packet) -> (r: Option<Vec<u8>>)
        ensures
            match first_nameserver(packet@.authorities) {
                Some(n) => r matches Some(v) && v@ == n,
                None => r is None,
            },
    {
        match find_first(&packet.authorities, DNS_RECORD_TYPE_NS, true) {
            Some(i) => {
                proof {
                    lemma_first_selected(packet@.authorities, DNS_RECORD_TYPE_NS, true, i as int);
                }
                Some(copy_bytes(&packet.authorities[i].data))
            },
            None => None,
        }
    }
    /// The first query of a resolution: to the root server, about the name
    /// with one trailing dot removed.
    pub fn start(domain_name: &[u8], record_type: u16, hops: u32) -> (r: Query)
        ensures
            r.nameserver@ == root_nameserver(),
            r.domain_name@ == trim_dot(domain_name@),
            r.record_type == record_type,
            r.hops_left == hops,
    {
        let nameserver: Vec<u8> = vec![49u8, 57, 56, 46, 52, 49, 46, 48, 46, 52];
        let mut end = domain_name.len();
        if end > 0 && domain_name[end - 1] == LABEL_SEPARATOR {
            end = end - 1;
        }
        let mut name: Vec<u8> = Vec::new();
        push_range(&mut name, domain_name, 0, end);
        assert(nameserver@ =~= root_nameserver());
        assert(name@ =~= trim_dot(domain_name@));
        Query { nameserver, domain_name: name, record_type, hops_left: hops }
    }

    /// The step after a reply to `query`, by the first rule that applies: a
    /// direct answer resolves the name; else a glue address is asked next;
    /// else the name server's own name is resolved from the root first; else
    /// the name is not found. Going on costs one of the hops left, and fails
    /// once none is.
    pub fn advance(query: &Query, packet: &Packet) -> (r: Next)
        ensures
            match first_address(packet@.answers) {
                Some(a) => r matches Next::Resolved(v) && v@ == a,
                None => match first_address(packet@.additionals) {
                    Some(g) => if query.hops_left == 0 {
                        r == Next::Failed(DnsError::TooManyHops)
                    } else {
                        r matches Next::Ask(q) && asks(q, g, query.domain_name@, query.record_type, query.hops_left - 1)
                    },
                    None => match first_nameserver(packet@.authorities) {
                        Some(n) => if query.hops_left == 0 {
                            r == Next::Failed(DnsError::TooManyHops)
                        } else {
                            r matches Next::Lookup(q) && asks(q, root_nameserver(), trim_dot(n), DNS_RECORD_TYPE_A, query.hops_left - 1)
                        },
                        None => r == Next::Failed(DnsError::NotFound),
                    },
                },
            },
    {
        if let Some(ip) = Resolver::get_answer(packet) {
            return Next::Resolved(ip);
        }
        if let Some(glue) = Resolver::get_nameserver_ip(packet) {
            if query.hops_left == 0 {
                return Next::Failed(DnsError::TooManyHops);
            }
            return Next::Ask(
                Query {
                    nameserver: glue,
                    domain_name: copy_bytes(&query.domain_name),
                    record_type: query.record_type,
                    hops_left: query.hops_left - 1,
                },
            );
        }
        if let Some(ns) = Resolver::get_nameserver(packet) {
            if query.hops_left == 0 {
                return Next::Failed(DnsError::TooManyHops);
            }
            let sub = Resolver::start(ns.as_slice(), DNS_RECORD_TYPE_A, query.hops_left - 1);
            return Next::Lookup(sub);
        }
        Next::Failed(DnsError::NotFound)
    }

    /// The step once the name server of a lookup has resolved to `address`:
    /// ask it about the query's name, at the cost of one hop.
    pub fn resume(query: &Query, address: Vec<u8>) -> (r: Next)
        ensures
            if query.hops_left == 0 {
                r == Next::Failed(DnsError::TooManyHops)
            } else {
                r matches Next::Ask(q) && asks(q, address@, query.domain_name@, query.record_type, query.hops_left - 1)
            },
    {
        if query.hops_left == 0 {
            return Next::Failed(DnsError::TooManyHops);
        }
        Next::Ask(
            Query {
                nameserver: address,
                domain_name: copy_bytes(&query.domain_name),
                record_type: query.record_type,
                hops_left: query.hops_left - 1,
            },
        )
    }
}

} // verus!
