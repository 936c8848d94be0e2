//! What requests are answered with, field by field.

use vstd::prelude::*;
use vstd::string::*;

use crate::addr::IpAddr;
use crate::container::Resolved;
use crate::handler::{HandleError, Handler, Response, Route};
use crate::message::{
    Header, MessageType, OpCode, Record, RecordData, RecordType, Reply, Request, ResponseCode,
};
use crate::name::{ParsedText, Proto};

verus! {

/// The name that is asked for has the text `q` in lower case and without dots
/// at its end.
pub open spec fn asks_name(request: Request, q: Seq<char>) -> bool {
    exists|u: Seq<char>, k: nat|
        crate::dns::lower_name_text(crate::dns::lower_labels(request.name@)) == #[trigger] (u
            + crate::text::repeated('.', k)) && (u.len() > 0 ==> u.last() != '.') && q
            == crate::text::lower(u)
}

/// The request is an ordinary query.
pub open spec fn is_question(request: Request) -> bool {
    request.header.op_code == OpCode::Query && request.header.message_type == MessageType::Query
}

/// `s` is a name of the container `name` below the root domain: the name
/// itself, or with a service and a protocol in front.
pub open spec fn names_container(
    s: Seq<char>,
    service: Option<Seq<char>>,
    proto: Proto,
    name: Seq<char>,
) -> bool {
    name.len() > 0 && match service {
        None => name[0] != '_' && proto == Proto::Tcp && s == name,
        Some(v) => v.len() > 0 && !v.contains('.') && s == crate::name::srv_text(v, proto, name),
    }
}

/// The request is a query for the container `name`, for a service of it or
/// not, below the root domain `root`.
pub open spec fn asks_for(
    request: Request,
    root: Seq<char>,
    service: Option<Seq<char>>,
    proto: Proto,
    name: Seq<char>,
) -> bool {
    &&& is_question(request)
    &&& exists|s: Seq<char>|
        #[trigger] names_container(s, service, proto, name) && asks_name(
            request,
            s + seq!['.'] + root,
        )
}

/// `h` answers the request with `r`, given what its container resolves to.
pub open spec fn answers(
    h: Handler,
    request: Request,
    resolved: Option<Resolved>,
    r: Result<Reply, HandleError>,
) -> bool {
    crate::handler::is_answer(h, request, resolved, crate::handler::outcome(r))
}

/// The outcome is a reply without records that reports `code`.
pub open spec fn only_reports(r: Result<Reply, HandleError>, code: ResponseCode) -> bool {
    &&& r is Ok
    &&& r->Ok_0.header.response_code == code
    &&& r->Ok_0.answers@.len() == 0
    &&& r->Ok_0.additionals@.len() == 0
}

/// The text of the name that is asked for is looked at as it was asked.
proof fn asked_name_is_looked_at(request: Request, q: Seq<char>)
    requires
        asks_name(request, q),
    ensures
        crate::handler::qname_of(crate::handler::name_text_of(request.name@)) == q,
{
    let (u, k) = choose|u: Seq<char>, k: nat|
        crate::dns::lower_name_text(crate::dns::lower_labels(request.name@)) == #[trigger] (u
            + crate::text::repeated('.', k)) && (u.len() > 0 ==> u.last() != '.') && q
            == crate::text::lower(u);
    crate::text::back_is_trimmed(u, crate::text::repeated('.', k), |x: char| x == '.');
}

/// Every name is asked for in one way.
pub proof fn every_request_asks_a_name(request: Request) -> (q: Seq<char>)
    ensures
        asks_name(request, q),
        forall|x: Seq<char>| #[trigger] asks_name(request, x) ==> x == q,
{
    let text = crate::dns::lower_name_text(crate::dns::lower_labels(request.name@));
    let drop = |x: char| x == '.';
    let u = crate::text::trim_back(text, drop);
    let b = crate::text::back_comes_apart(text, drop);
    assert(b =~= crate::text::repeated('.', b.len()));
    assert(text == u + crate::text::repeated('.', b.len()));
    let q = crate::text::lower(u);
    assert(asks_name(request, q));
    assert forall|x: Seq<char>| #[trigger] asks_name(request, x) implies x == q by {
        asked_name_is_looked_at(request, x);
        asked_name_is_looked_at(request, q);
    }
    q
}

/// A query for a container is routed to it.
proof fn container_is_asked_for(
    request: Request,
    root: Seq<char>,
    service: Option<Seq<char>>,
    proto: Proto,
    name: Seq<char>,
)
    requires
        asks_for(request, root, service, proto, name),
    ensures
        crate::handler::route_of(
            root,
            request.header,
            crate::handler::name_text_of(request.name@),
        ) == crate::handler::RouteView::Resolve(ParsedText { service, proto, name }),
{
    let s = choose|s: Seq<char>|
        #[trigger] names_container(s, service, proto, name) && asks_name(
            request,
            s + seq!['.'] + root,
        );
    asked_name_is_looked_at(request, s + seq!['.'] + root);
    crate::laws::below_the_root_is_inside(s, root);
    match service {
        None => crate::name::plain_name_is_kept(s),
        Some(v) => crate::name::srv_name_is_split(v, proto, name),
    }
}

/// A query for a container has that container resolved.
pub proof fn query_is_routed_to_its_container(
    h: Handler,
    request: Request,
    service: Option<Seq<char>>,
    proto: Proto,
    name: Seq<char>,
    r: Route,
)
    requires
        r@ == crate::handler::route_of(
            h.root_domain@,
            request.header,
            crate::handler::name_text_of(request.name@),
        ),
        asks_for(request, h.root_domain@, service, proto, name),
    ensures
        r is Resolve,
        r->Resolve_0.name@ == name,
        r->Resolve_0.proto == proto,
        r->Resolve_0.service is Some <==> service is Some,
        service is Some ==> r->Resolve_0.service->0@ == service->0,
{
    container_is_asked_for(request, h.root_domain@, service, proto, name);
}

/// The header of every reply is that of a complete response to the request. It
/// claims authority if and only if it reports no error.
pub proof fn reply_header_fits_the_request(
    h: Handler,
    request: Request,
    resolved: Option<Resolved>,
    reply: Reply,
)
    requires
        answers(h, request, resolved, Ok(reply)),
    ensures
        reply.header.id == request.header.id,
        reply.header.message_type == MessageType::Response,
        reply.header.op_code == request.header.op_code,
        reply.header.recursion_desired == request.header.recursion_desired,
        reply.header.checking_disabled == request.header.checking_disabled,
        reply.header.authoritative <==> reply.header.response_code == ResponseCode::NoError,
        !reply.header.truncated,
        !reply.header.recursion_available,
        !reply.header.authentic_data,
{
}

/// Anything but an ordinary query is answered with the code NOTIMP.
pub proof fn other_requests_get_notimp(
    h: Handler,
    request: Request,
    resolved: Option<Resolved>,
    r: Result<Reply, HandleError>,
)
    requires
        answers(h, request, resolved, r),
        !is_question(request),
    ensures
        only_reports(r, ResponseCode::NotImp),
{
}

/// A query for a name that is neither the root domain nor below it is answered
/// with the code REFUSED, whatever the flags of the request are.
pub proof fn names_outside_get_refused(
    h: Handler,
    request: Request,
    q: Seq<char>,
    resolved: Option<Resolved>,
    r: Result<Reply, HandleError>,
)
    requires
        answers(h, request, resolved, r),
        is_question(request),
        asks_name(request, q),
        q != h.root_domain@,
        forall|s: Seq<char>| s.len() > 0 ==> q != #[trigger] (s + seq!['.'] + h.root_domain@),
    ensures
        only_reports(r, ResponseCode::Refused),
{
    asked_name_is_looked_at(request, q);
    if let crate::handler::PlaceText::Inside(s) = crate::handler::place_of(q, h.root_domain@) {
        crate::laws::inside_is_below_the_root(q, h.root_domain@, s);
        assert(q == s + seq!['.'] + h.root_domain@);
    }
}

/// A query for the root domain itself is answered with the code NXDOMAIN.
pub proof fn root_domain_gets_nxdomain(
    h: Handler,
    request: Request,
    resolved: Option<Resolved>,
    r: Result<Reply, HandleError>,
)
    requires
        answers(h, request, resolved, r),
        is_question(request),
        asks_name(request, h.root_domain@),
    ensures
        only_reports(r, ResponseCode::NXDomain),
{
    asked_name_is_looked_at(request, h.root_domain@);
    if let crate::handler::PlaceText::Inside(s) = crate::handler::place_of(
        h.root_domain@,
        h.root_domain@,
    ) {
        crate::laws::inside_is_below_the_root(h.root_domain@, h.root_domain@, s);
        assert((s + seq!['.'] + h.root_domain@).len() > h.root_domain@.len());
    }
}

/// A query for a name below the root domain that can be no container's is
/// answered with the code NXDOMAIN.
pub proof fn malformed_names_get_nxdomain(
    h: Handler,
    request: Request,
    s: Seq<char>,
    resolved: Option<Resolved>,
    r: Result<Reply, HandleError>,
)
    requires
        answers(h, request, resolved, r),
        is_question(request),
        s.len() > 0,
        asks_name(request, s + seq!['.'] + h.root_domain@),
        forall|service: Option<Seq<char>>, proto: Proto, name: Seq<char>|
            !#[trigger] names_container(s, service, proto, name),
    ensures
        only_reports(r, ResponseCode::NXDomain),
{
    asked_name_is_looked_at(request, s + seq!['.'] + h.root_domain@);
    crate::laws::below_the_root_is_inside(s, h.root_domain@);
    if let Some(p) = crate::name::parsed(s) {
        crate::name::underscore_is_for_services(s);
        if p.service is Some {
            crate::name::srv_reading_is_faithful(s, p);
        } else {
            crate::name::plain_name_is_kept(s);
        }
        assert(names_container(s, p.service, p.proto, p.name));
    }
}

/// A query for a container that is not known is answered with the code
/// NXDOMAIN, whatever record is asked for.
pub proof fn unknown_containers_get_nxdomain(
    h: Handler,
    request: Request,
    service: Option<Seq<char>>,
    proto: Proto,
    name: Seq<char>,
    r: Result<Reply, HandleError>,
)
    requires
        answers(h, request, crate::handler::opt_resolved(None), r),
        asks_for(request, h.root_domain@, service, proto, name),
    ensures
        only_reports(r, ResponseCode::NXDomain),
{
    container_is_asked_for(request, h.root_domain@, service, proto, name);
}

/// The IPv4 addresses of a list, in their order.
pub open spec fn v4_of(ips: Seq<IpAddr>) -> Seq<u32> {
    ips.filter_map(
        |ip: IpAddr|
            match ip {
                IpAddr::V4(v) => Some(v),
                IpAddr::V6(_) => None,
            },
    )
}

/// The IPv6 addresses of a list, in their order.
pub open spec fn v6_of(ips: Seq<IpAddr>) -> Seq<u128> {
    ips.filter_map(
        |ip: IpAddr|
            match ip {
                IpAddr::V4(_) => None,
                IpAddr::V6(v) => Some(v),
            },
    )
}

/// `records` are the A records of these addresses under the name `owner`.
pub open spec fn are_a_records(
    records: Seq<Record>,
    owner: Seq<Seq<u8>>,
    ttl: u32,
    v4: Seq<u32>,
) -> bool {
    &&& records.len() == v4.len()
    &&& forall|i: int|
        0 <= i < records.len() ==> {
            &&& (#[trigger] records[i]).name@ == owner
            &&& records[i].ttl == ttl
            &&& records[i].data == RecordData::A(v4[i])
        }
}

/// `records` are the AAAA records of these addresses under the name `owner`.
pub open spec fn are_aaaa_records(
    records: Seq<Record>,
    owner: Seq<Seq<u8>>,
    ttl: u32,
    v6: Seq<u128>,
) -> bool {
    &&& records.len() == v6.len()
    &&& forall|i: int|
        0 <= i < records.len() ==> {
            &&& (#[trigger] records[i]).name@ == owner
            &&& records[i].ttl == ttl
            &&& records[i].data == RecordData::AAAA(v6[i])
        }
}

/// The address records of a list are those of its addresses of the family.
proof fn address_records_by_family(owner: Seq<Seq<u8>>, ttl: u32, ips: Seq<IpAddr>)
    ensures
        crate::handler::address_records_of(owner, ttl, ips, RecordType::A) == v4_of(ips).map_values(
            |v: u32|
                crate::message::RecordView { name: owner, ttl, data: crate::message::DataView::A(v) },
        ),
        crate::handler::address_records_of(owner, ttl, ips, RecordType::AAAA) == v6_of(
            ips,
        ).map_values(
            |v: u128|
                crate::message::RecordView {
                    name: owner,
                    ttl,
                    data: crate::message::DataView::AAAA(v),
                },
        ),
    decreases ips.len(),
{
    let f4 = |ip: IpAddr|
        match ip {
            IpAddr::V4(v) => Some(v),
            IpAddr::V6(_) => None,
        };
    let f6 = |ip: IpAddr|
        match ip {
            IpAddr::V4(_) => None,
            IpAddr::V6(v) => Some(v),
        };
    let g4 = crate::handler::address_record(owner, ttl, RecordType::A);
    let g6 = crate::handler::address_record(owner, ttl, RecordType::AAAA);
    let m4 = |v: u32|
        crate::message::RecordView { name: owner, ttl, data: crate::message::DataView::A(v) };
    let m6 = |v: u128|
        crate::message::RecordView { name: owner, ttl, data: crate::message::DataView::AAAA(v) };
    if ips.len() == 0 {
        assert(ips.filter_map(g4) =~= ips.filter_map(f4).map_values(m4));
        assert(ips.filter_map(g6) =~= ips.filter_map(f6).map_values(m6));
    } else {
        let n = ips.len() - 1;
        let init = ips.drop_last();
        address_records_by_family(owner, ttl, init);
        assert(ips.take(ips.len() as int) =~= ips);
        assert(ips.take(n) =~= init);
        ips.lemma_filter_map_take_succ(f4, n);
        ips.lemma_filter_map_take_succ(f6, n);
        ips.lemma_filter_map_take_succ(g4, n);
        ips.lemma_filter_map_take_succ(g6, n);
        assert(ips.filter_map(g4) =~= ips.filter_map(f4).map_values(m4));
        assert(ips.filter_map(g6) =~= ips.filter_map(f6).map_values(m6));
    }
}

/// Only the address types have address records.
pub proof fn other_types_have_no_address_records(
    owner: Seq<Seq<u8>>,
    ttl: u32,
    ips: Seq<IpAddr>,
    qtype: RecordType,
)
    requires
        qtype != RecordType::A,
        qtype != RecordType::AAAA,
    ensures
        crate::handler::address_records_of(owner, ttl, ips, qtype).len() == 0,
    decreases ips.len(),
{
    if ips.len() > 0 {
        let n = ips.len() - 1;
        other_types_have_no_address_records(owner, ttl, ips.drop_last(), qtype);
        assert(ips.take(ips.len() as int) =~= ips);
        assert(ips.take(n) =~= ips.drop_last());
        ips.lemma_filter_map_take_succ(crate::handler::address_record(owner, ttl, qtype), n);
    }
}

/// Records with these views are A records.
proof fn viewed_a_records(records: Seq<Record>, owner: Seq<Seq<u8>>, ttl: u32, ips: Seq<IpAddr>)
    requires
        crate::message::records(records) == crate::handler::address_records_of(
            owner,
            ttl,
            ips,
            RecordType::A,
        ),
    ensures
        are_a_records(records, owner, ttl, v4_of(ips)),
{
    address_records_by_family(owner, ttl, ips);
    let views = crate::message::records(records);
    assert(views.len() == records.len());
    assert forall|i: int| 0 <= i < records.len() implies {
        &&& (#[trigger] records[i]).name@ == owner
        &&& records[i].ttl == ttl
        &&& records[i].data == RecordData::A(v4_of(ips)[i])
    } by {
        assert(views[i] == records[i]@);
    }
}

/// Records with these views are AAAA records.
proof fn viewed_aaaa_records(records: Seq<Record>, owner: Seq<Seq<u8>>, ttl: u32, ips: Seq<IpAddr>)
    requires
        crate::message::records(records) == crate::handler::address_records_of(
            owner,
            ttl,
            ips,
            RecordType::AAAA,
        ),
    ensures
        are_aaaa_records(records, owner, ttl, v6_of(ips)),
{
    address_records_by_family(owner, ttl, ips);
    let views = crate::message::records(records);
    assert(views.len() == records.len());
    assert forall|i: int| 0 <= i < records.len() implies {
        &&& (#[trigger] records[i]).name@ == owner
        &&& records[i].ttl == ttl
        &&& records[i].data == RecordData::AAAA(v6_of(ips)[i])
    } by {
        assert(views[i] == records[i]@);
    }
}

/// A query of type A or AAAA for a known container is answered with its
/// addresses of that family in their order, under the name as it was asked and
/// with the TTL of the server.
pub proof fn address_query_gets_addresses(
    h: Handler,
    request: Request,
    name: Seq<char>,
    found: Resolved,
    r: Result<Reply, HandleError>,
)
    requires
        answers(h, request, crate::handler::opt_resolved(Some(&found)), r),
        asks_for(request, h.root_domain@, None, Proto::Tcp, name),
        request.qtype == RecordType::A || request.qtype == RecordType::AAAA,
    ensures
        r is Ok,
        r->Ok_0.header.response_code == ResponseCode::NoError,
        r->Ok_0.additionals@.len() == 0,
        request.qtype == RecordType::A ==> are_a_records(
            r->Ok_0.answers@,
            request.name@,
            h.ttl,
            v4_of(found.ips@),
        ),
        request.qtype == RecordType::AAAA ==> are_aaaa_records(
            r->Ok_0.answers@,
            request.name@,
            h.ttl,
            v6_of(found.ips@),
        ),
{
    container_is_asked_for(request, h.root_domain@, None, Proto::Tcp, name);
    let reply = r->Ok_0;
    assert(crate::message::records(reply.additionals@).len() == reply.additionals@.len());
    if request.qtype == RecordType::A {
        viewed_a_records(reply.answers@, request.name@, h.ttl, found.ips@);
    } else {
        viewed_aaaa_records(reply.answers@, request.name@, h.ttl, found.ips@);
    }
}

/// A known container has no other records: a query for its addresses under a
/// service name, or for a record of another type, is answered without records
/// and without an error.
pub proof fn other_records_are_no_data(
    h: Handler,
    request: Request,
    service: Option<Seq<char>>,
    proto: Proto,
    name: Seq<char>,
    found: Resolved,
    r: Result<Reply, HandleError>,
)
    requires
        answers(h, request, crate::handler::opt_resolved(Some(&found)), r),
        asks_for(request, h.root_domain@, service, proto, name),
        request.qtype is Other || (service is Some && request.qtype != RecordType::SRV),
    ensures
        only_reports(r, ResponseCode::NoError),
{
    container_is_asked_for(request, h.root_domain@, service, proto, name);
    let reply = r->Ok_0;
    assert(crate::message::records(reply.answers@).len() == reply.answers@.len());
    assert(crate::message::records(reply.additionals@).len() == reply.additionals@.len());
}

/// The labels of the name that an SRV record for the container points to: that
/// of the container below the root domain.
pub open spec fn target_of(name: Seq<char>, root: Seq<char>) -> Option<Seq<Seq<u8>>> {
    crate::dns::ascii_name(name + seq!['.'] + root + seq!['.'])
}

/// An SRV query for a known container is answered by its port.
/// - Without a port there are no records, and no error.
/// - With one there is one record: priority and weight zero, the port, and the
///   container's name below the root domain. The container's IPv4 addresses and
///   then its IPv6 addresses come along under that name.
/// - If that is no name, the request fails.
pub proof fn srv_query_gets_port_and_addresses(
    h: Handler,
    request: Request,
    service: Option<Seq<char>>,
    proto: Proto,
    name: Seq<char>,
    found: Resolved,
    r: Result<Reply, HandleError>,
)
    requires
        answers(h, request, crate::handler::opt_resolved(Some(&found)), r),
        asks_for(request, h.root_domain@, service, proto, name),
        request.qtype == RecordType::SRV,
    ensures
        ({
            let port = crate::container::srv_port_of(
                found.ports@,
                found.labels@,
                service,
                proto,
            );
            let target = target_of(name, h.root_domain@);
            let n = v4_of(found.ips@).len() as int;
            &&& port is None ==> only_reports(r, ResponseCode::NoError)
            &&& port is Some && target is None ==> r == Err::<Reply, _>(HandleError::TargetName)
            &&& port is Some && target is Some ==> {
                &&& r is Ok
                &&& r->Ok_0.header.response_code == ResponseCode::NoError
                &&& r->Ok_0.answers@.len() == 1
                &&& r->Ok_0.answers@[0].name@ == request.name@
                &&& r->Ok_0.answers@[0].ttl == h.ttl
                &&& r->Ok_0.answers@[0].data matches RecordData::SRV {
                    priority,
                    weight,
                    port: p,
                    target: t,
                } && priority == 0 && weight == 0 && p == port->0 && t@ == target->0
                &&& r->Ok_0.additionals@.len() == n + v6_of(found.ips@).len()
                &&& are_a_records(
                    r->Ok_0.additionals@.take(n),
                    target->0,
                    h.ttl,
                    v4_of(found.ips@),
                )
                &&& are_aaaa_records(
                    r->Ok_0.additionals@.skip(n),
                    target->0,
                    h.ttl,
                    v6_of(found.ips@),
                )
            }
        }),
{
    container_is_asked_for(request, h.root_domain@, service, proto, name);
    let port = crate::container::srv_port_of(found.ports@, found.labels@, service, proto);
    let target = target_of(name, h.root_domain@);
    if port is None {
        let reply = r->Ok_0;
        assert(crate::message::records(reply.answers@).len() == reply.answers@.len());
        assert(crate::message::records(reply.additionals@).len() == reply.additionals@.len());
    } else if target is Some {
        let reply = r->Ok_0;
        let t = target->0;
        let n = v4_of(found.ips@).len() as int;
        let more = reply.additionals@;
        let a = crate::handler::address_records_of(t, h.ttl, found.ips@, RecordType::A);
        let b = crate::handler::address_records_of(t, h.ttl, found.ips@, RecordType::AAAA);
        address_records_by_family(t, h.ttl, found.ips@);
        assert(crate::message::records(reply.answers@).len() == reply.answers@.len());
        assert(crate::message::records(reply.answers@)[0] == reply.answers@[0]@);
        assert(crate::message::records(more) == a + b);
        assert(crate::message::records(more).len() == more.len());
        assert(crate::message::records(more.take(n)) =~= a) by {
            assert forall|i: int| 0 <= i < n implies crate::message::records(more.take(n))[i]
                == a[i] by {
                assert(crate::message::records(more)[i] == (a + b)[i]);
            }
        }
        assert(crate::message::records(more.skip(n)) =~= b) by {
            assert forall|i: int| 0 <= i < b.len() implies crate::message::records(more.skip(n))[i]
                == b[i] by {
                assert(crate::message::records(more)[n + i] == (a + b)[n + i]);
            }
        }
        viewed_a_records(more.take(n), t, h.ttl, found.ips@);
        viewed_aaaa_records(more.skip(n), t, h.ttl, found.ips@);
    }
}

/// A reply is sent as it is; a request that fails is reported with the code
/// SERVFAIL in the header of a response to it.
pub proof fn failures_are_servfail(
    h: Handler,
    request: Request,
    resolved: Option<Resolved>,
    r: Response,
)
    requires
        crate::handler::is_response(h, request, resolved, r),
    ensures
        match r {
            Response::Send(reply) => answers(h, request, resolved, Ok(reply)),
            Response::Fail(header) => {
                &&& answers(h, request, resolved, Err(HandleError::TargetName))
                &&& header.response_code == ResponseCode::ServFail
                &&& header.id == request.header.id
                &&& header.message_type == MessageType::Response
                &&& header.op_code == request.header.op_code
                &&& header.recursion_desired == request.header.recursion_desired
                &&& header.checking_disabled == request.header.checking_disabled
                &&& !header.authoritative && !header.truncated && !header.recursion_available
                    && !header.authentic_data
            },
        },
{
}

/// The header of a response to a request, before anything is reported in it.
pub proof fn response_header_is_blank(header: Header)
    ensures
        ({
            let r = crate::message::response_header(header);
            &&& r.id == header.id
            &&& r.message_type == MessageType::Response
            &&& r.op_code == header.op_code
            &&& r.recursion_desired == header.recursion_desired
            &&& r.checking_disabled == header.checking_disabled
            &&& r.response_code == ResponseCode::NoError
            &&& !r.authoritative && !r.truncated && !r.recursion_available && !r.authentic_data
        }),
{
}

/// A reply to a request reports the code that it was made for, and has no
/// records.
pub proof fn error_reply_reports_its_code(request: Header, code: ResponseCode, r: Reply)
    requires
        r@ == crate::message::error_view(request, code),
    ensures
        r.header.response_code == code,
        !r.header.authoritative,
        r.answers@.len() == 0,
        r.additionals@.len() == 0,
{
    assert(crate::message::records(r.answers@).len() == r.answers@.len());
    assert(crate::message::records(r.additionals@).len() == r.additionals@.len());
}

} // verus!
