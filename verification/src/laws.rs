//! What holds of the server as a whole.

use std::sync::Arc;
use vstd::prelude::*;
use vstd::string::*;

use crate::addr::IpAddr;
use crate::container::Resolved;
use crate::handler::{HandleError, Handler, PlaceText, RouteView};
use crate::index::{ContainerIndex, ContainerSummary};
use crate::message::{
    DataView, Header, MessageType, OpCode, RecordType, RecordView, ReplyView, Request, ResponseCode,
};
use crate::name::{ParsedText, Proto};
use crate::resolve::{ResolveAction, ResolveEvent};

verus! {

broadcast use vstd::seq_lib::group_seq_properties;

/// The request is an ordinary query.
pub open spec fn is_query(header: Header) -> bool {
    header.op_code == OpCode::Query && header.message_type == MessageType::Query
}

/// Every reply belongs to its request: it is a response with the same id,
/// operation, RD and CD, it is complete, and recursion is not on offer.
pub proof fn reply_mirrors_request(
    root: Seq<char>,
    ttl: u32,
    request: Request,
    text: Seq<char>,
    resolved: Option<Resolved>,
    reply: ReplyView,
)
    requires
        crate::handler::handled(root, ttl, request, text, resolved) == Ok::<_, HandleError>(reply),
    ensures
        reply.header.id == request.header.id,
        reply.header.message_type == MessageType::Response,
        reply.header.op_code == request.header.op_code,
        reply.header.recursion_desired == request.header.recursion_desired,
        reply.header.checking_disabled == request.header.checking_disabled,
        !reply.header.truncated,
        !reply.header.recursion_available,
        !reply.header.authentic_data,
{
}

/// A reply either succeeds with authority or reports one of three errors
/// without authority and without records.
pub proof fn reply_succeeds_or_is_empty(
    root: Seq<char>,
    ttl: u32,
    request: Request,
    text: Seq<char>,
    resolved: Option<Resolved>,
    reply: ReplyView,
)
    requires
        crate::handler::handled(root, ttl, request, text, resolved) == Ok::<_, HandleError>(reply),
    ensures
        reply.header.authoritative <==> reply.header.response_code == ResponseCode::NoError,
        reply.header.response_code != ResponseCode::NoError ==> {
            &&& reply.answers.len() == 0
            &&& reply.additionals.len() == 0
            &&& reply.header.response_code == ResponseCode::NXDomain
                || reply.header.response_code == ResponseCode::Refused
                || reply.header.response_code == ResponseCode::NotImp
        },
{
}

/// Anything but an ordinary query is answered with NOTIMP.
pub proof fn other_operations_are_not_implemented(
    root: Seq<char>,
    ttl: u32,
    request: Request,
    text: Seq<char>,
    resolved: Option<Resolved>,
)
    requires
        !is_query(request.header),
    ensures
        crate::handler::handled(root, ttl, request, text, resolved) == Ok::<_, HandleError>(
            crate::message::error_view(request.header, ResponseCode::NotImp),
        ),
{
}

/// Queries outside the root domain are answered with REFUSED, whatever the
/// containers are.
pub proof fn outside_the_zone_is_refused(
    root: Seq<char>,
    ttl: u32,
    request: Request,
    text: Seq<char>,
    resolved: Option<Resolved>,
)
    requires
        is_query(request.header),
        crate::handler::qname_of(text) != root,
        forall|name: Seq<char>|
            name.len() > 0 ==> crate::handler::qname_of(text) != #[trigger] (name + seq!['.'] + root),
    ensures
        crate::handler::handled(root, ttl, request, text, resolved) == Ok::<_, HandleError>(
            crate::message::error_view(request.header, ResponseCode::Refused),
        ),
{
    let qname = crate::handler::qname_of(text);
    let suffix = seq!['.'] + root;
    if suffix.is_suffix_of(qname) && qname.len() > suffix.len() {
        let name = qname.take(qname.len() - suffix.len());
        inside_is_below_the_root(qname, root, name);
        assert(qname == name + seq!['.'] + root);
    }
}

/// Unknown names inside the zone, the root domain itself among them, are
/// answered with NXDOMAIN.
pub proof fn unknown_inside_the_zone_does_not_exist(
    root: Seq<char>,
    ttl: u32,
    request: Request,
    text: Seq<char>,
)
    requires
        is_query(request.header),
        crate::handler::qname_of(text) == root || exists|name: Seq<char>|
            name.len() > 0 && crate::handler::qname_of(text) == #[trigger] (name + seq!['.']
                + root),
    ensures
        crate::handler::handled(root, ttl, request, text, None) == Ok::<_, HandleError>(
            crate::message::error_view(request.header, ResponseCode::NXDomain),
        ),
{
    if exists|name: Seq<char>|
        name.len() > 0 && crate::handler::qname_of(text) == #[trigger] (name + seq!['.'] + root) {
        let name = choose|name: Seq<char>|
            name.len() > 0 && crate::handler::qname_of(text) == #[trigger] (name + seq!['.']
                + root);
        below_the_root_is_inside(name, root);
    } else {
        let suffix = seq!['.'] + root;
        assert(suffix.len() > root.len());
    }
}

/// A name below the root domain is stripped to what is in front of it.
pub proof fn below_the_root_is_inside(name: Seq<char>, root: Seq<char>)
    requires
        name.len() > 0,
    ensures
        crate::handler::place_of(name + seq!['.'] + root, root) == PlaceText::Inside(name),
{
    let qname = name + seq!['.'] + root;
    let suffix = seq!['.'] + root;
    assert(qname.subrange(qname.len() - suffix.len(), qname.len() as int) =~= suffix);
    assert(qname.take(qname.len() - suffix.len()) =~= name);
}

/// Only a name below the root domain is stripped.
pub proof fn inside_is_below_the_root(qname: Seq<char>, root: Seq<char>, name: Seq<char>)
    requires
        crate::handler::place_of(qname, root) == PlaceText::Inside(name),
    ensures
        name.len() > 0,
        qname == name + seq!['.'] + root,
{
    let suffix = seq!['.'] + root;
    let tail = qname.subrange(qname.len() - suffix.len(), qname.len() as int);
    assert(tail =~= suffix);
    assert(qname =~= name + tail);
    assert(qname =~= name + seq!['.'] + root);
}

/// Dots at the end can be dropped before or after lowering.
proof fn lower_and_trim_commute(s: Seq<char>)
    ensures
        crate::text::lower(crate::text::trim_back(s, |x: char| x == '.')) == crate::text::trim_back(
            crate::text::lower(s),
            |x: char| x == '.',
        ),
    decreases s.len(),
{
    let l = crate::text::lower(s);
    if s.len() > 0 {
        assert(l.last() == crate::text::lower_char(s.last()));
        if s.last() == '.' {
            lower_and_trim_commute(s.drop_last());
            assert(crate::text::lower(s.drop_last()) =~= l.drop_last());
        }
    }
}

/// The ASCII case of the text of a query name does not matter.
pub proof fn case_does_not_matter(root: Seq<char>, header: Header, a: Seq<char>, b: Seq<char>)
    requires
        crate::text::lower(a) == crate::text::lower(b),
    ensures
        crate::handler::route_of(root, header, a) == crate::handler::route_of(root, header, b),
{
    lower_and_trim_commute(a);
    lower_and_trim_commute(b);
}

/// A dot at the end of a query name does not matter.
pub proof fn trailing_dot_does_not_matter(root: Seq<char>, header: Header, text: Seq<char>)
    ensures
        crate::handler::route_of(root, header, text.push('.')) == crate::handler::route_of(
            root,
            header,
            text,
        ),
{
    assert(text.push('.').drop_last() =~= text);
}

/// The glue of an SRV answer has every address of the container exactly once:
/// its IPv4 addresses, then its IPv6 addresses.
pub proof fn glue_is_complete(owner: Seq<Seq<u8>>, ttl: u32, ips: Seq<IpAddr>)
    ensures
        crate::handler::address_records_of(owner, ttl, ips, RecordType::A).len()
            + crate::handler::address_records_of(owner, ttl, ips, RecordType::AAAA).len()
            == ips.len(),
        forall|v: u32| #[trigger]
            ips.contains(IpAddr::V4(v)) ==> crate::handler::address_records_of(
                owner,
                ttl,
                ips,
                RecordType::A,
            ).contains(RecordView { name: owner, ttl, data: DataView::A(v) }),
        forall|v: u128| #[trigger]
            ips.contains(IpAddr::V6(v)) ==> crate::handler::address_records_of(
                owner,
                ttl,
                ips,
                RecordType::AAAA,
            ).contains(RecordView { name: owner, ttl, data: DataView::AAAA(v) }),
    decreases ips.len(),
{
    if ips.len() > 0 {
        let init = ips.drop_last();
        let last = ips.last();
        glue_is_complete(owner, ttl, init);
        let a0 = crate::handler::address_records_of(owner, ttl, init, RecordType::A);
        let a1 = crate::handler::address_records_of(owner, ttl, ips, RecordType::A);
        let b0 = crate::handler::address_records_of(owner, ttl, init, RecordType::AAAA);
        let b1 = crate::handler::address_records_of(owner, ttl, ips, RecordType::AAAA);
        assert forall|v: u32| #[trigger] ips.contains(IpAddr::V4(v)) implies a1.contains(
            RecordView { name: owner, ttl, data: DataView::A(v) },
        ) by {
            let rec = RecordView { name: owner, ttl, data: DataView::A(v) };
            let k = choose|k: int| 0 <= k < ips.len() && ips[k] == IpAddr::V4(v);
            if k < init.len() {
                assert(init[k] == IpAddr::V4(v));
                assert(init.contains(IpAddr::V4(v)));
                let m = choose|m: int| 0 <= m < a0.len() && a0[m] == rec;
                assert(a1[m] == rec);
            } else {
                assert(a1 == a0 + seq![rec]);
                assert(a1[a0.len() as int] == rec);
            }
        }
        assert forall|v: u128| #[trigger] ips.contains(IpAddr::V6(v)) implies b1.contains(
            RecordView { name: owner, ttl, data: DataView::AAAA(v) },
        ) by {
            let rec = RecordView { name: owner, ttl, data: DataView::AAAA(v) };
            let k = choose|k: int| 0 <= k < ips.len() && ips[k] == IpAddr::V6(v);
            if k < init.len() {
                assert(init[k] == IpAddr::V6(v));
                assert(init.contains(IpAddr::V6(v)));
                let m = choose|m: int| 0 <= m < b0.len() && b0[m] == rec;
                assert(b1[m] == rec);
            } else {
                assert(b1 == b0 + seq![rec]);
                assert(b1[b0.len() as int] == rec);
            }
        }
    }
}

/// Without a label that gives a port, an SRV answer names a port that the
/// container exposes over the protocol that was asked for, and there is such
/// an answer if and only if it exposes one.
pub proof fn unlabelled_port_is_exposed(
    ports: Seq<(u16, Proto)>,
    labels: Map<Seq<char>, Seq<char>>,
    service: Option<Seq<char>>,
    proto: Proto,
)
    requires
        service is Some ==> crate::container::label_port(
            labels,
            crate::container::LABEL_SRV_PREFIX@ + service->0,
        ) is None,
        crate::container::label_port(labels, crate::container::LABEL_PORT@) is None,
    ensures
        match crate::container::srv_port_of(ports, labels, service, proto) {
            Some(p) => crate::container::exposes(ports, proto, p),
            None => forall|p: u16| !#[trigger] crate::container::exposes(ports, proto, p),
        },
{
    if exists|p: u16| crate::container::exposes(ports, proto, p) {
        let p = choose|p: u16| crate::container::exposes(ports, proto, p);
        a_lowest_port_exists(ports, proto, p);
    }
}

/// Where a port is exposed there is a lowest one.
pub proof fn a_lowest_port_exists(ports: Seq<(u16, Proto)>, proto: Proto, p: u16)
    requires
        crate::container::exposes(ports, proto, p),
    ensures
        exists|q: u16| crate::container::is_lowest(ports, proto, q),
    decreases p,
{
    if !crate::container::is_lowest(ports, proto, p) {
        let q = choose|q: u16| #[trigger] crate::container::exposes(ports, proto, q) && q < p;
        a_lowest_port_exists(ports, proto, q);
    }
}

/// The text of plain labels in lower case, without the dot at the end.
pub open spec fn zone_text(labels: Seq<Seq<u8>>) -> Seq<char> {
    crate::text::lower(crate::dns::dotted(labels)).drop_last()
}

/// The text of two runs of labels.
proof fn dotted_of_concat(a: Seq<Seq<u8>>, b: Seq<Seq<u8>>)
    ensures
        crate::dns::dotted(a + b) == crate::dns::dotted(a) + crate::dns::dotted(b),
    decreases b.len(),
{
    if b.len() == 0 {
        assert(a + b =~= a);
        assert(crate::dns::dotted(a) + crate::dns::dotted(b) =~= crate::dns::dotted(a));
    } else {
        dotted_of_concat(a, b.drop_last());
        assert((a + b).drop_last() =~= a + b.drop_last());
        assert((a + b).last() == b.last());
        assert(crate::dns::dotted(a + b) =~= crate::dns::dotted(a) + crate::dns::dotted(b));
    }
}

/// The text of plain labels has something in front of the dot at its end.
proof fn plain_text_shape(labels: Seq<Seq<u8>>)
    requires
        crate::dns::is_plain(labels),
    ensures
        crate::dns::dotted(labels).len() >= 2,
        crate::dns::dotted(labels).last() == '.',
        crate::dns::dotted(labels)[crate::dns::dotted(labels).len() - 2] != '.',
        crate::dns::dotted(labels)[0] == labels[0][0] as char,
    decreases labels.len(),
{
    let d = crate::dns::dotted(labels);
    let label = labels.last();
    let c = crate::dns::label_chars(label);
    assert(crate::dns::is_plain_label(labels[labels.len() - 1]));
    assert(crate::dns::is_plain_octet(label[label.len() - 1], label.len() == 1));
    assert(c[c.len() - 1] == label[label.len() - 1] as char);
    let init = labels.drop_last();
    assert(d == crate::dns::dotted(init) + c + seq!['.']);
    if init.len() > 0 {
        assert forall|i: int| 0 <= i < init.len() implies crate::dns::is_plain_label(
            #[trigger] init[i],
        ) by {
            assert(init[i] == labels[i]);
        }
        plain_text_shape(init);
    } else {
        assert(crate::dns::dotted(init) =~= Seq::empty());
        assert(d[0] == c[0]);
        assert(c[0] == label[0] as char);
    }
}

/// The query name of plain labels is their text.
proof fn plain_qname(labels: Seq<Seq<u8>>)
    requires
        crate::dns::is_plain(labels),
    ensures
        crate::handler::qname_of(crate::text::lower(crate::dns::dotted(labels))) == zone_text(labels),
        zone_text(labels).len() > 0,
        zone_text(labels)[0] == crate::text::lower_char(labels[0][0] as char),
        zone_text(labels) + seq!['.'] == crate::text::lower(crate::dns::dotted(labels)),
{
    plain_text_shape(labels);
    let d = crate::dns::dotted(labels);
    let l = crate::text::lower(d);
    let z = l.drop_last();
    assert(l.last() == '.');
    assert(z.last() == crate::text::lower_char(d[d.len() - 2]));
    let drop = |x: char| x == '.';
    assert(crate::text::trim_back(l, drop) == crate::text::trim_back(z, drop));
    assert(crate::text::trim_back(z, drop) == z);
    assert(crate::text::lower(z) =~= z);
    assert(z + seq!['.'] =~= l);
}

/// Parts of a plain name.
proof fn plain_parts(a: Seq<Seq<u8>>, b: Seq<Seq<u8>>)
    requires
        crate::dns::is_plain(a),
        crate::dns::is_plain(b),
    ensures
        crate::dns::is_plain(a + b),
        zone_text(a + b) == zone_text(a) + seq!['.'] + zone_text(b),
{
    assert forall|i: int| 0 <= i < (a + b).len() implies crate::dns::is_plain_label(
        #[trigger] (a + b)[i],
    ) by {
        if i < a.len() {
            assert((a + b)[i] == a[i]);
        } else {
            assert((a + b)[i] == b[i - a.len()]);
        }
    }
    dotted_of_concat(a, b);
    crate::text::lower_of_concat(crate::dns::dotted(a), crate::dns::dotted(b));
    plain_qname(a);
    plain_qname(b);
    let x = crate::text::lower(crate::dns::dotted(a));
    let y = crate::text::lower(crate::dns::dotted(b));
    assert((x + y).drop_last() =~= x + y.drop_last());
}

/// A query for `<container>.<root domain>`, in any case, is stripped to the
/// container name, and that is what gets resolved.
pub proof fn container_query_is_routed(
    container: Seq<Seq<u8>>,
    zone: Seq<Seq<u8>>,
    header: Header,
)
    requires
        is_query(header),
        crate::dns::is_plain(container),
        crate::dns::is_plain(zone),
        container[0][0] != 0x5f,
    ensures
        crate::handler::route_of(
            zone_text(zone),
            header,
            crate::text::lower(crate::dns::dotted(container + zone)),
        ) == RouteView::Resolve(
            ParsedText { service: None, proto: Proto::Tcp, name: zone_text(container) },
        ),
{
    plain_parts(container, zone);
    plain_qname(container + zone);
    plain_qname(container);
    below_the_root_is_inside(zone_text(container), zone_text(zone));
    assert(crate::dns::is_plain_label(container[0]));
    assert(crate::dns::is_plain_octet(container[0][0], true));
    crate::name::plain_name_is_kept(zone_text(container));
}

/// A query for `<container>.<root domain>` of type A or AAAA is answered with
/// one record per address of that family, under the name that was asked for
/// and with the configured TTL.
pub proof fn address_query_is_answered(
    h: Handler,
    request: Request,
    container: Seq<Seq<u8>>,
    zone: Seq<Seq<u8>>,
    resolved: Resolved,
    r: Result<ReplyView, HandleError>,
)
    requires
        crate::handler::is_answer(h, request, Some(resolved), r),
        is_query(request.header),
        request.qtype == RecordType::A || request.qtype == RecordType::AAAA,
        request.name@ == container + zone,
        crate::dns::is_plain(container),
        crate::dns::is_plain(zone),
        container[0][0] != 0x5f,
        h.root_domain@ == zone_text(zone),
    ensures
        r == Ok::<_, HandleError>(
            crate::message::success_view(
                request.header,
                crate::handler::address_records_of(
                    request.name@,
                    h.ttl,
                    resolved.ips@,
                    request.qtype,
                ),
                Seq::empty(),
            ),
        ),
{
    plain_parts(container, zone);
    container_query_is_routed(container, zone, request.header);
}

/// The length of two runs of labels.
proof fn wire_len_of_concat(a: Seq<Seq<u8>>, b: Seq<Seq<u8>>)
    ensures
        crate::dns::wire_len(a + b) == crate::dns::wire_len(a) + crate::dns::wire_len(b),
    decreases b.len(),
{
    if b.len() == 0 {
        assert(a + b =~= a);
    } else {
        wire_len_of_concat(a, b.drop_last());
        assert((a + b).drop_last() =~= a + b.drop_last());
    }
}

/// The two labels in front of an SRV name: `_<service>` and the protocol.
pub open spec fn is_srv_prefix(
    labels: Seq<Seq<u8>>,
    service: Seq<char>,
    proto: Proto,
) -> bool {
    &&& labels.len() == 2
    &&& labels[0].len() >= 2
    &&& labels[0][0] == 0x5f
    &&& service == crate::text::lower(crate::dns::label_chars(labels[0])).skip(1)
    &&& crate::name::proto_label(crate::text::lower(crate::dns::label_chars(labels[1]))) == Some(
        proto,
    )
}

/// The text in front of the container name in an SRV name.
proof fn srv_query_text(
    prefix: Seq<Seq<u8>>,
    container: Seq<Seq<u8>>,
    service: Seq<char>,
    proto: Proto,
)
    requires
        crate::dns::is_plain(prefix),
        crate::dns::is_plain(container),
        is_srv_prefix(prefix, service, proto),
    ensures
        zone_text(prefix + container) == crate::name::srv_text(
            service,
            proto,
            zone_text(container),
        ),
        service.len() > 0,
        !service.contains('.'),
{
    plain_parts(prefix, container);
    let s = crate::dns::label_chars(prefix[0]);
    let p = crate::dns::label_chars(prefix[1]);
    let one = prefix.drop_last();
    assert(one.drop_last() =~= Seq::empty());
    assert(one.last() == prefix[0]);
    assert(prefix.last() == prefix[1]);
    assert(crate::dns::dotted(one.drop_last()) =~= Seq::empty());
    assert(crate::dns::dotted(one) =~= s + seq!['.']);
    assert(crate::dns::dotted(prefix) =~= s + seq!['.'] + p + seq!['.']);
    let ls = crate::text::lower(s);
    let lp = crate::text::lower(p);
    assert(crate::text::lower(crate::dns::dotted(prefix)) =~= ls + seq!['.'] + lp + seq!['.']);
    assert(zone_text(prefix) =~= ls + seq!['.'] + lp);
    assert(ls[0] == '_');
    assert(ls =~= seq!['_'] + service);
    assert(crate::dns::is_plain_label(prefix[0]));
    assert forall|k: int| 0 <= k < service.len() implies service[k] != '.' by {
        assert(crate::dns::is_plain_octet(prefix[0][k + 1], false));
        assert(s[k + 1] == prefix[0][k + 1] as char);
        assert(service[k] == crate::text::lower_char(s[k + 1]));
    }
    assert(zone_text(prefix) + seq!['.'] + zone_text(container) =~= crate::name::srv_text(
        service,
        proto,
        zone_text(container),
    ));
}

/// A query for `_<service>._<proto>.<container>.<root domain>`, in any case,
/// is stripped to the container name, the service and the protocol.
pub proof fn srv_query_is_routed(
    prefix: Seq<Seq<u8>>,
    container: Seq<Seq<u8>>,
    zone: Seq<Seq<u8>>,
    service: Seq<char>,
    proto: Proto,
    header: Header,
)
    requires
        is_query(header),
        crate::dns::is_plain(prefix),
        crate::dns::is_plain(container),
        crate::dns::is_plain(zone),
        is_srv_prefix(prefix, service, proto),
    ensures
        crate::handler::route_of(
            zone_text(zone),
            header,
            crate::text::lower(crate::dns::dotted(prefix + container + zone)),
        ) == RouteView::Resolve(
            ParsedText { service: Some(service), proto, name: zone_text(container) },
        ),
{
    srv_query_text(prefix, container, service, proto);
    plain_parts(prefix, container);
    plain_parts(prefix + container, zone);
    plain_qname(prefix + container + zone);
    plain_qname(prefix + container);
    plain_qname(container);
    below_the_root_is_inside(zone_text(prefix + container), zone_text(zone));
    crate::name::srv_name_is_split(service, proto, zone_text(container));
}

/// An SRV query for a service of a container that has a port for it is
/// answered with one record: priority and weight zero, that port, and the
/// container's name below the root domain as the target. Its addresses come
/// along as glue.
pub proof fn srv_query_is_answered(
    h: Handler,
    request: Request,
    prefix: Seq<Seq<u8>>,
    container: Seq<Seq<u8>>,
    zone: Seq<Seq<u8>>,
    service: Seq<char>,
    proto: Proto,
    resolved: Resolved,
    port: u16,
    r: Result<ReplyView, HandleError>,
)
    requires
        crate::handler::is_answer(h, request, Some(resolved), r),
        is_query(request.header),
        request.qtype == RecordType::SRV,
        request.name@ == prefix + container + zone,
        crate::dns::valid_name(request.name@),
        crate::dns::is_plain(prefix),
        crate::dns::is_plain(container),
        crate::dns::is_plain(zone),
        is_srv_prefix(prefix, service, proto),
        h.root_domain@ == zone_text(zone),
        crate::container::srv_port_of(resolved.ports@, resolved.labels@, Some(service), proto)
            == Some(port),
    ensures
        r == Ok::<_, HandleError>(
            crate::message::success_view(
                request.header,
                seq![
                    RecordView {
                        name: request.name@,
                        ttl: h.ttl,
                        data: DataView::SRV {
                            priority: 0,
                            weight: 0,
                            port,
                            target: crate::dns::lower_labels(container + zone),
                        },
                    },
                ],
                crate::handler::address_records_of(
                    crate::dns::lower_labels(container + zone),
                    h.ttl,
                    resolved.ips@,
                    RecordType::A,
                ) + crate::handler::address_records_of(
                    crate::dns::lower_labels(container + zone),
                    h.ttl,
                    resolved.ips@,
                    RecordType::AAAA,
                ),
            ),
        ),
{
    let name = request.name@;
    let target = crate::dns::lower_labels(container + zone);
    plain_parts(prefix, container);
    plain_parts(prefix + container, zone);
    plain_parts(container, zone);
    srv_query_is_routed(prefix, container, zone, service, proto, request.header);
    crate::dns::lower_labels_text(container + zone);
    crate::dns::lower_labels_len(container + zone);
    plain_qname(container + zone);
    assert(crate::dns::dotted(target) =~= crate::handler::target_text(
        zone_text(container),
        zone_text(zone),
    ));
    assert(name =~= prefix + (container + zone));
    wire_len_of_concat(prefix, container + zone);
    assert forall|i: int| 0 <= i < target.len() implies 1 <= (#[trigger] target[i]).len() <= 63 by {
        assert(target[i].len() == (container + zone)[i].len());
        assert(name[prefix.len() + i] == (container + zone)[i]);
    }
    assert(crate::dns::valid_name(target));
}

/// The record of an address is among the records of a list if and only if the
/// address is in the list.
proof fn address_records_contain(
    owner: Seq<Seq<u8>>,
    ttl: u32,
    ips: Seq<IpAddr>,
    qtype: RecordType,
    rec: RecordView,
)
    ensures
        crate::handler::address_records_of(owner, ttl, ips, qtype).contains(rec) <==> exists|k: int|
            0 <= k < ips.len() && crate::handler::address_record(owner, ttl, qtype)(
                #[trigger] ips[k],
            ) == Some(rec),
{
    crate::order::filter_map_holds(ips, crate::handler::address_record(owner, ttl, qtype), rec);
}

/// A query for `<name>.<root domain>` of type A or AAAA, where `<name>` is a
/// name of a running container and no container listed before it has it too,
/// is answered with the addresses of the container's network endpoints: those
/// on the preferred network if it is attached to it, else all of them. The records
/// are those of its addresses of that family, and no others. The preferred
/// name must not stand for two networks of the container.
pub proof fn container_addresses_are_served(
    h: Handler,
    request: Request,
    container: Seq<Seq<u8>>,
    zone: Seq<Seq<u8>>,
    containers: Seq<ContainerSummary>,
    i: int,
    index: Arc<ContainerIndex>,
    found: Resolved,
    r: Result<ReplyView, HandleError>,
    rec: RecordView,
)
    requires
        crate::docker::is_index_of(*index, containers),
        0 <= i < containers.len(),
        crate::index::is_name_of(containers[i], zone_text(container)),
        forall|k: int|
            0 <= k < i ==> !crate::index::is_name_of(#[trigger] containers[k], zone_text(container)),
        h.prefer_network is Some ==> crate::index::at_most_one_network(
            containers[i],
            h.prefer_network->0@,
        ),
        crate::resolve::is_next(
            h,
            zone_text(container),
            ResolveEvent::Index(index),
            ResolveAction::Done(Some(found)),
        ),
        crate::handler::is_answer(h, request, Some(found), r),
        is_query(request.header),
        request.qtype == RecordType::A || request.qtype == RecordType::AAAA,
        request.name@ == container + zone,
        crate::dns::is_plain(container),
        crate::dns::is_plain(zone),
        container[0][0] != 0x5f,
        h.root_domain@ == zone_text(zone),
    ensures
        r is Ok,
        r->Ok_0.header.response_code == ResponseCode::NoError,
        r->Ok_0.answers.contains(rec) <==> {
            &&& rec.name == request.name@
            &&& rec.ttl == h.ttl
            &&& exists|ip: IpAddr|
                #[trigger] crate::index::serves(containers[i], crate::resolve::preference(h), ip)
                    && crate::handler::address_data(ip, request.qtype) == Some(rec.data)
        },
{
    let name = zone_text(container);
    let entries = index.entries@;
    let p = crate::index::answers_to(name);
    let c = containers[i];
    let e = entries[i];
    assert(crate::index::describes(e, c));
    assert(e.names@.contains(name));
    assert forall|k: int| 0 <= k < i implies !p(#[trigger] entries[k]) by {
        assert(crate::index::describes(entries[k], containers[k]));
        assert(!crate::index::is_name_of(containers[k], name));
        assert(!entries[k].names@.contains(name));
    }
    crate::index::first_where_is_first(entries, p, i);
    address_query_is_answered(h, request, container, zone, found, r);
    let owner = request.name@;
    let prefer = crate::resolve::preference(h);
    let f = crate::handler::address_record(owner, h.ttl, request.qtype);
    address_records_contain(owner, h.ttl, found.ips@, request.qtype, rec);
    if r->Ok_0.answers.contains(rec) {
        let k = choose|k: int| 0 <= k < found.ips@.len() && f(#[trigger] found.ips@[k]) == Some(rec);
        let ip = found.ips@[k];
        assert(found.ips@.contains(ip));
        crate::index::lookup_returns_what_is_served(c, e, prefer, found, ip);
    }
    if rec.name == owner && rec.ttl == h.ttl && exists|ip: IpAddr|
        #[trigger] crate::index::serves(c, prefer, ip) && crate::handler::address_data(ip, request.qtype)
            == Some(rec.data) {
        let ip = choose|ip: IpAddr|
            #[trigger] crate::index::serves(c, prefer, ip) && crate::handler::address_data(
                ip,
                request.qtype,
            ) == Some(rec.data);
        crate::index::lookup_returns_what_is_served(c, e, prefer, found, ip);
        let k = choose|k: int| 0 <= k < found.ips@.len() && found.ips@[k] == ip;
        assert(f(found.ips@[k]) == Some(rec));
    }
}

/// Two lists of records with the same data and TTLs in the same order, the
/// first all under the name `a` and the second all under the name `b`.
pub open spec fn same_but_owner(
    x: Seq<RecordView>,
    a: Seq<Seq<u8>>,
    y: Seq<RecordView>,
    b: Seq<Seq<u8>>,
) -> bool {
    &&& x.len() == y.len()
    &&& forall|i: int|
        0 <= i < x.len() ==> {
            &&& (#[trigger] x[i]).name == a
            &&& y[i].name == b
            &&& x[i].ttl == y[i].ttl
            &&& x[i].data == y[i].data
        }
}

/// Address records under two names differ in nothing else.
proof fn address_records_by_owner(
    a: Seq<Seq<u8>>,
    b: Seq<Seq<u8>>,
    ttl: u32,
    ips: Seq<IpAddr>,
    qtype: RecordType,
)
    ensures
        same_but_owner(
            crate::handler::address_records_of(a, ttl, ips, qtype),
            a,
            crate::handler::address_records_of(b, ttl, ips, qtype),
            b,
        ),
    decreases ips.len(),
{
    if ips.len() > 0 {
        let n = ips.len() - 1;
        let init = ips.drop_last();
        address_records_by_owner(a, b, ttl, init, qtype);
        assert(ips.take(ips.len() as int) =~= ips);
        assert(ips.take(n) =~= init);
        ips.lemma_filter_map_take_succ(crate::handler::address_record(a, ttl, qtype), n);
        ips.lemma_filter_map_take_succ(crate::handler::address_record(b, ttl, qtype), n);
    }
}

/// The ASCII case of a query name does not matter, whatever the name is. Two
/// requests that differ in nothing else are routed to the same container, and
/// with the same result from resolving it they get the same outcome: the same
/// failure, or replies with the same header, the same additional records, and
/// answers that differ only in their owner, which repeats the name as asked.
pub proof fn case_of_the_name_does_not_matter(
    h: Handler,
    a: Request,
    b: Request,
    ra: Option<Resolved>,
    rb: Option<Resolved>,
    x: Result<ReplyView, HandleError>,
    y: Result<ReplyView, HandleError>,
)
    requires
        a.header == b.header,
        a.qtype == b.qtype,
        crate::dns::lower_labels(a.name@) == crate::dns::lower_labels(b.name@),
        crate::index::same_resolved(ra, rb),
        crate::handler::is_answer(h, a, ra, x),
        crate::handler::is_answer(h, b, rb, y),
    ensures
        crate::handler::route_of(
            h.root_domain@,
            a.header,
            crate::handler::name_text_of(a.name@),
        ) == crate::handler::route_of(
            h.root_domain@,
            b.header,
            crate::handler::name_text_of(b.name@),
        ),
        match (x, y) {
            (Ok(p), Ok(q)) => {
                &&& p.header == q.header
                &&& same_but_owner(p.answers, a.name@, q.answers, b.name@)
                &&& p.additionals == q.additionals
            },
            (Err(p), Err(q)) => p == q,
            _ => false,
        },
{
    if let Some(r) = ra {
        address_records_by_owner(a.name@, b.name@, h.ttl, r.ips@, a.qtype);
    }
}

} // verus!
