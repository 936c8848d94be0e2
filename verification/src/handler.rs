//! The server's decisions: what a request is answered with.

use vstd::prelude::*;
use vstd::string::*;

use crate::addr::IpAddr;
use crate::container::Resolved;
use crate::dns::DnsName;
use crate::message::{
    DataView, Header, MessageType, OpCode, Record, RecordData, RecordType, RecordView, Reply,
    ReplyView, Request, ResponseCode,
};
use crate::name::{parse_name, ParsedText, Proto};
use crate::text::{chars_of, concat, copy_text, same, to_ascii_lowercase, trim_end_matches};

verus! {

/// What the server answers with, apart from the containers themselves.
pub struct Handler {
    /// Root domain that is stripped from incoming queries (e.g. "xxx.yy").
    pub root_domain: String,
    /// TTL for returned records.
    pub ttl: u32,
    /// Preferred Docker network.
    pub prefer_network: Option<String>,
    /// Whether there is a Docker socket to ask.
    pub docker: bool,
    /// Whether there is a fallback DNS server to ask.
    pub fallback: bool,
}

/// Where a query name stands relative to the zone.
pub enum Place<'a> {
    /// Below the root domain: what is left in front of it.
    Inside(&'a str),
    /// The root domain itself.
    Apex,
    /// Anywhere else.
    Outside,
}

/// What a `Place` holds, as text.
pub enum PlaceText {
    Inside(Seq<char>),
    Apex,
    Outside,
}

impl<'a> View for Place<'a> {
    type V = PlaceText;

    open spec fn view(&self) -> PlaceText {
        match self {
            Place::Inside(s) => PlaceText::Inside(s@),
            Place::Apex => PlaceText::Apex,
            Place::Outside => PlaceText::Outside,
        }
    }
}

/// The query name that is looked at: no dot at the end, lower case.
pub open spec fn qname_of(text: Seq<char>) -> Seq<char> {
    crate::text::lower(crate::text::trim_back(text, |x: char| x == '.'))
}

/// The place of a query name: below the root domain if it ends in a dot and
/// the root domain and has something in front of that.
pub open spec fn place_of(qname: Seq<char>, root: Seq<char>) -> PlaceText {
    let suffix = seq!['.'] + root;
    if suffix.is_suffix_of(qname) && qname.len() > suffix.len() {
        PlaceText::Inside(qname.take(qname.len() - suffix.len()))
    } else if qname == root {
        PlaceText::Apex
    } else {
        PlaceText::Outside
    }
}

/// Finds the place of a query name.
pub fn locate<'a>(qname: &'a str, root: &str) -> (r: Place<'a>)
    ensures
        r@ == place_of(qname@, root@),
{
    let q = chars_of(qname);
    let d = chars_of(root);
    let ghost suffix = seq!['.'] + root@;
    if q.len() > d.len() && q.len() - d.len() > 1 {
        let n: usize = q.len() - d.len() - 1;
        let tail = qname.substring_char(n + 1, q.len());
        if q[n] == '.' && same(tail, root) {
            assert(qname@.subrange(n as int, qname@.len() as int) =~= suffix);
            assert(qname@.take(n as int) == qname@.subrange(0, n as int));
            return Place::Inside(qname.substring_char(0, n));
        }
        assert(!suffix.is_suffix_of(qname@)) by {
            if suffix.is_suffix_of(qname@) {
                let s = qname@.subrange(qname@.len() - suffix.len(), qname@.len() as int);
                assert(s == suffix);
                assert(s[0] == q@[n as int]);
                assert(tail@ =~= root@) by {
                    assert forall|k: int| 0 <= k < root@.len() implies tail@[k] == root@[k] by {
                        assert(s[k + 1] == suffix[k + 1]);
                    }
                }
            }
        }
    }
    if same(qname, root) {
        Place::Apex
    } else {
        Place::Outside
    }
}

/// A container that is asked for: what is left of a query name.
pub struct Question {
    pub service: Option<String>,
    pub proto: Proto,
    pub name: String,
}

impl View for Question {
    type V = ParsedText;

    open spec fn view(&self) -> ParsedText {
        ParsedText {
            service: match self.service {
                Some(s) => Some(s@),
                None => None,
            },
            proto: self.proto,
            name: self.name@,
        }
    }
}

/// What to do about a request.
pub enum Route {
    /// Reply with this.
    Reply(Reply),
    /// Resolve this container first.
    Resolve(Question),
}

/// What a `Route` holds.
pub enum RouteView {
    Reply(ReplyView),
    Resolve(ParsedText),
}

impl View for Route {
    type V = RouteView;

    open spec fn view(&self) -> RouteView {
        match self {
            Route::Reply(r) => RouteView::Reply(r@),
            Route::Resolve(q) => RouteView::Resolve(q@),
        }
    }
}

/// The text of a query name: that of its labels in lower case.
pub open spec fn name_text_of(name: Seq<Seq<u8>>) -> Seq<char> {
    crate::dns::lower_name_text(crate::dns::lower_labels(name))
}

/// What is done about a request whose name has the text `text`: anything but a
/// query is not implemented; a name outside the zone is refused; the root
/// domain itself has no address; a malformed name is no container's.
pub open spec fn route_of(root: Seq<char>, header: Header, text: Seq<char>) -> RouteView {
    if header.op_code != OpCode::Query || header.message_type != MessageType::Query {
        RouteView::Reply(crate::message::error_view(header, ResponseCode::NotImp))
    } else {
        match place_of(qname_of(text), root) {
            PlaceText::Outside => RouteView::Reply(crate::message::error_view(header, ResponseCode::Refused)),
            PlaceText::Apex => RouteView::Reply(crate::message::error_view(header, ResponseCode::NXDomain)),
            PlaceText::Inside(stripped) => match crate::name::parsed(stripped) {
                Some(p) => RouteView::Resolve(p),
                None => RouteView::Reply(crate::message::error_view(header, ResponseCode::NXDomain)),
            },
        }
    }
}

impl Handler {
    /// Decides about a request whose name has the text `text`.
    pub fn route_text(&self, header: &Header, text: &str) -> (r: Route)
        ensures
            r@ == route_of(self.root_domain@, *header, text@),
    {
        if header.op_code != OpCode::Query || header.message_type != MessageType::Query {
            return Route::Reply(Reply::error_msg(header, ResponseCode::NotImp));
        }
        let qname = to_ascii_lowercase(trim_end_matches(text, '.'));
        match locate(qname.as_str(), self.root_domain.as_str()) {
            // Not our zone.
            Place::Outside => Route::Reply(Reply::error_msg(header, ResponseCode::Refused)),
            // The root domain itself has no address.
            Place::Apex => Route::Reply(Reply::error_msg(header, ResponseCode::NXDomain)),
            Place::Inside(stripped) => match parse_name(stripped) {
                Some(p) => {
                    let service = match p.service {
                        Some(s) => Some(copy_text(s)),
                        None => None,
                    };
                    Route::Resolve(Question { service, proto: p.proto, name: copy_text(p.name) })
                },
                None => Route::Reply(Reply::error_msg(header, ResponseCode::NXDomain)),
            },
        }
    }

    /// Decides about a request.
    pub fn route(&self, request: &Request) -> (r: Route)
        ensures
            r@ == route_of(
                self.root_domain@,
                request.header,
                name_text_of(request.name@),
            ),
            crate::dns::is_plain(request.name@) ==> name_text_of(request.name@)
                == crate::text::lower(crate::dns::dotted(request.name@)),
    {
        let text = request.name.to_lower_text();
        self.route_text(&request.header, text.as_str())
    }
}

/// Why a request could not be answered.
#[derive(Clone, Copy, Debug, PartialEq, Eq, Structural)]
pub enum HandleError {
    /// The container name and the root domain do not make a DNS name.
    TargetName,
}

/// The record data that an address gives for a query type, if any.
pub open spec fn address_data(ip: IpAddr, qtype: RecordType) -> Option<DataView> {
    match (qtype, ip) {
        (RecordType::A, IpAddr::V4(v)) => Some(DataView::A(v)),
        (RecordType::AAAA, IpAddr::V6(v)) => Some(DataView::AAAA(v)),
        _ => None,
    }
}

/// The record that an address gives for a query type, if any.
pub open spec fn address_record(owner: Seq<Seq<u8>>, ttl: u32, qtype: RecordType) -> spec_fn(
    IpAddr,
) -> Option<RecordView> {
    |ip: IpAddr|
        match address_data(ip, qtype) {
            Some(data) => Some(RecordView { name: owner, ttl, data }),
            None => None,
        }
}

/// One record per address of the family that is asked for, in their order.
pub open spec fn address_records_of(
    owner: Seq<Seq<u8>>,
    ttl: u32,
    ips: Seq<IpAddr>,
    qtype: RecordType,
) -> Seq<RecordView> {
    ips.filter_map(address_record(owner, ttl, qtype))
}

/// The text of the name that an SRV record points to.
pub open spec fn target_text(name: Seq<char>, root: Seq<char>) -> Seq<char> {
    name + seq!['.'] + root + seq!['.']
}

/// The reply to a request for a container.
///
/// `target` is the name that an SRV record points to, `None` where the
/// container name and the root domain do not make one.
/// - No container of that name: NXDOMAIN.
/// - SRV: one record with the container's port, and its addresses as glue; no
///   record where it has no port.
/// - A and AAAA on the plain container name: its addresses of that family.
/// - Anything else: the name exists but has no such records.
pub open spec fn answer_of(
    ttl: u32,
    request: Header,
    owner: Seq<Seq<u8>>,
    qtype: RecordType,
    question: ParsedText,
    resolved: Option<Resolved>,
    target: Option<Seq<Seq<u8>>>,
) -> Result<ReplyView, HandleError> {
    match resolved {
        None => Ok(crate::message::error_view(request, ResponseCode::NXDomain)),
        Some(r) => match (qtype, question.service) {
            (RecordType::SRV, _) => match crate::container::srv_port_of(
                r.ports@,
                r.labels@,
                question.service,
                question.proto,
            ) {
                Some(port) => match target {
                    Some(t) => Ok(
                        crate::message::success_view(
                            request,
                            seq![
                                RecordView {
                                    name: owner,
                                    ttl,
                                    data: DataView::SRV { priority: 0, weight: 0, port, target: t },
                                },
                            ],
                            address_records_of(t, ttl, r.ips@, RecordType::A) + address_records_of(
                                t,
                                ttl,
                                r.ips@,
                                RecordType::AAAA,
                            ),
                        ),
                    ),
                    None => Err(HandleError::TargetName),
                },
                None => Ok(
                    crate::message::success_view(request, Seq::empty(), Seq::empty()),
                ),
            },
            (RecordType::A | RecordType::AAAA, None) => Ok(
                crate::message::success_view(
                    request,
                    address_records_of(owner, ttl, r.ips@, qtype),
                    Seq::empty(),
                ),
            ),
            _ => Ok(crate::message::success_view(request, Seq::empty(), Seq::empty())),
        },
    }
}

/// The view of an outcome.
pub open spec fn outcome(r: Result<Reply, HandleError>) -> Result<ReplyView, HandleError> {
    match r {
        Ok(reply) => Ok(reply@),
        Err(e) => Err(e),
    }
}

/// The resolved container behind an optional reference.
pub open spec fn opt_resolved(r: Option<&Resolved>) -> Option<Resolved> {
    match r {
        Some(r) => Some(*r),
        None => None,
    }
}

/// The reply to a request on this route, given what its container resolves to
/// and the name that an SRV record points to.
pub open spec fn handled_to(
    ttl: u32,
    request: Request,
    route: RouteView,
    resolved: Option<Resolved>,
    target: Option<Seq<Seq<u8>>>,
) -> Result<ReplyView, HandleError> {
    match route {
        RouteView::Reply(reply) => Ok(reply),
        RouteView::Resolve(question) => answer_of(
            ttl,
            request.header,
            request.name@,
            request.qtype,
            question,
            resolved,
            target,
        ),
    }
}

/// The text of the name that an SRV record on this route points to.
pub open spec fn route_target(route: RouteView, root: Seq<char>) -> Seq<char> {
    match route {
        RouteView::Reply(_) => Seq::empty(),
        RouteView::Resolve(question) => target_text(question.name, root),
    }
}

/// The reply to a request whose name has the text `text`, given what its
/// container resolves to.
pub open spec fn handled(
    root: Seq<char>,
    ttl: u32,
    request: Request,
    text: Seq<char>,
    resolved: Option<Resolved>,
) -> Result<ReplyView, HandleError> {
    let route = route_of(root, request.header, text);
    handled_to(ttl, request, route, resolved, crate::dns::ascii_name(route_target(route, root)))
}

/// `r` is the outcome of a request, given what its container resolves to:
/// the reply to the request by the text of its name. The text of a plain name
/// is its labels with dots between them, and where the text of an SRV target
/// is that of a plain name, the target is that name.
pub open spec fn is_answer(
    h: Handler,
    request: Request,
    resolved: Option<Resolved>,
    r: Result<ReplyView, HandleError>,
) -> bool {
    let root = h.root_domain@;
    let text = name_text_of(request.name@);
    let route = route_of(root, request.header, text);
    &&& r == handled(root, h.ttl, request, text, resolved)
    &&& crate::dns::is_plain(request.name@) ==> text == crate::text::lower(
        crate::dns::dotted(request.name@),
    )
    &&& forall|l: Seq<Seq<u8>>| #[trigger]
        crate::dns::dotted(l) == route_target(route, root) && crate::dns::is_plain(l)
            && crate::dns::valid_name(l) ==> r == handled_to(
            h.ttl,
            request,
            route,
            resolved,
            Some(l),
        )
}

/// What becomes of a request.
pub enum Response {
    /// This reply is sent.
    Send(Reply),
    /// Nothing is sent; the failure is reported with this header.
    Fail(Header),
}

/// The header that reports a failure.
pub open spec fn failure_header(request: Header) -> Header {
    Header { response_code: ResponseCode::ServFail, ..crate::message::response_header(request) }
}

/// `r` is what becomes of a request, given what its container resolves to.
pub open spec fn is_response(
    h: Handler,
    request: Request,
    resolved: Option<Resolved>,
    r: Response,
) -> bool {
    match r {
        Response::Send(reply) => is_answer(h, request, resolved, Ok(reply@)),
        Response::Fail(header) => header == failure_header(request.header) && is_answer(
            h,
            request,
            resolved,
            Err(HandleError::TargetName),
        ),
    }
}

impl Handler {
    /// One record per address of the family that is asked for.
    pub fn address_records(&self, name: &DnsName, ips: &Vec<IpAddr>, qtype: RecordType) -> (r: Vec<
        Record,
    >)
        ensures
            crate::message::records(r@) == address_records_of(name@, self.ttl, ips@, qtype),
    {
        let ghost f = address_record(name@, self.ttl, qtype);
        let mut r: Vec<Record> = Vec::new();
        assert(crate::message::records(r@) =~= ips@.take(0).filter_map(f));
        for i in 0..ips.len()
            invariant
                f == address_record(name@, self.ttl, qtype),
                crate::message::records(r@) == ips@.take(i as int).filter_map(f),
        {
            proof {
                ips@.lemma_filter_map_take_succ(f, i as int);
            }
            let data = match (qtype, ips[i]) {
                (RecordType::A, IpAddr::V4(v)) => Some(RecordData::A(v)),
                (RecordType::AAAA, IpAddr::V6(v)) => Some(RecordData::AAAA(v)),
                _ => None,
            };
            let ghost before = r@;
            if let Some(data) = data {
                r.push(Record { name: name.clone(), ttl: self.ttl, data });
                assert(crate::message::records(r@) =~= crate::message::records(before).push(
                    r@.last()@,
                ));
            }
            assert(crate::message::records(r@) =~= ips@.take(i + 1).filter_map(f));
        }
        assert(ips@.take(ips@.len() as int) == ips@);
        r
    }

    /// The reply to a request for a container, given the name that an SRV
    /// record points to.
    pub fn answer_with(
        &self,
        request: &Request,
        question: &Question,
        resolved: Option<&Resolved>,
        target: Option<DnsName>,
    ) -> (r: Result<Reply, HandleError>)
        ensures
            outcome(r) == answer_of(
                self.ttl,
                request.header,
                request.name@,
                request.qtype,
                question@,
                opt_resolved(resolved),
                match target {
                    Some(t) => Some(t@),
                    None => None,
                },
            ),
    {
        let resolved = match resolved {
            Some(r) => r,
            None => {
                return Ok(Reply::error_msg(&request.header, ResponseCode::NXDomain));
            },
        };
        let mut answers: Vec<Record> = Vec::new();
        let mut additionals: Vec<Record> = Vec::new();
        assert(crate::message::records(answers@) =~= Seq::empty());
        match request.qtype {
            // SRV: `_http._tcp.weft.xxx.yy` -> target weft.xxx.yy + port.
            RecordType::SRV => {
                let service = match &question.service {
                    Some(s) => Some(s.as_str()),
                    None => None,
                };
                if let Some(port) = resolved.srv_port(service, question.proto) {
                    let target = match target {
                        Some(t) => t,
                        None => {
                            return Err(HandleError::TargetName);
                        },
                    };
                    // Glue: address records for the target, saves the
                    // client a round trip.
                    let mut v4 = self.address_records(&target, &resolved.ips, RecordType::A);
                    let mut v6 = self.address_records(&target, &resolved.ips, RecordType::AAAA);
                    let ghost glue = crate::message::records(v4@) + crate::message::records(v6@);
                    additionals.append(&mut v4);
                    additionals.append(&mut v6);
                    assert(crate::message::records(additionals@) =~= glue);
                    let ghost view = RecordView {
                        name: request.name@,
                        ttl: self.ttl,
                        data: DataView::SRV { priority: 0, weight: 0, port, target: target@ },
                    };
                    answers.push(
                        Record {
                            name: request.name.clone(),
                            ttl: self.ttl,
                            data: RecordData::SRV { priority: 0, weight: 0, port, target },
                        },
                    );
                    assert(crate::message::records(answers@) =~= seq![view]);
                }
            },
            // A/AAAA on the plain container name.
            RecordType::A | RecordType::AAAA => {
                if question.service.is_none() {
                    answers = self.address_records(&request.name, &resolved.ips, request.qtype);
                }
            },
            // Anything else (MX, TXT, ...): the name exists, but has no such
            // records -> NODATA (NOERROR, empty answer).
            RecordType::Other(_) => {},
        }
        Ok(Reply::success(&request.header, answers, additionals))
    }

    /// The reply to a request for a container.
    pub fn answer(&self, request: &Request, question: &Question, resolved: Option<&Resolved>) -> (r:
        Result<Reply, HandleError>)
        ensures
            outcome(r) == answer_of(
                self.ttl,
                request.header,
                request.name@,
                request.qtype,
                question@,
                opt_resolved(resolved),
                crate::dns::ascii_name(target_text(question.name@, self.root_domain@)),
            ),
            forall|l: Seq<Seq<u8>>| #[trigger]
                crate::dns::dotted(l) == target_text(question.name@, self.root_domain@)
                    && crate::dns::is_plain(l) && crate::dns::valid_name(l) ==> outcome(r)
                    == answer_of(
                    self.ttl,
                    request.header,
                    request.name@,
                    request.qtype,
                    question@,
                    opt_resolved(resolved),
                    Some(l),
                ),
    {
        match request.qtype {
            RecordType::SRV => {
                proof {
                    reveal_strlit(".");
                }
                let front = concat(concat(question.name.as_str(), ".").as_str(), self.root_domain.as_str());
                let text = concat(front.as_str(), ".");
                assert(text@ =~= target_text(question.name@, self.root_domain@));
                self.answer_with(request, question, resolved, DnsName::from_ascii(text.as_str()))
            },
            _ => self.answer_with(request, question, resolved, None),
        }
    }

    /// The reply to a request, given what its container resolves to.
    pub fn handle(&self, request: &Request, resolved: Option<&Resolved>) -> (r: Result<
        Reply,
        HandleError,
    >)
        ensures
            is_answer(*self, *request, opt_resolved(resolved), outcome(r)),
    {
        match self.route(request) {
            Route::Reply(reply) => Ok(reply),
            Route::Resolve(question) => self.answer(request, &question, resolved),
        }
    }

    /// What becomes of a request, given what its container resolves to.
    pub fn handle_request(&self, request: &Request, resolved: Option<&Resolved>) -> (r: Response)
        ensures
            is_response(*self, *request, opt_resolved(resolved), r),
    {
        match self.handle(request, resolved) {
            Ok(reply) => Response::Send(reply),
            Err(HandleError::TargetName) => {
                let mut header = Header::response_from_request(&request.header);
                header.response_code = ResponseCode::ServFail;
                Response::Fail(header)
            },
        }
    }
}

} // verus!
