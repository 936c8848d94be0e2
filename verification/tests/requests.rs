use std::sync::Arc;

use docker_dns::addr::IpAddr;
use docker_dns::container::Resolved;
use docker_dns::dns::DnsName;
use docker_dns::handler::{locate, HandleError, Handler, Place, Response, Route};
use docker_dns::labels::Labels;
use docker_dns::message::{
    Header, MessageType, OpCode, Record, RecordData, RecordType, Reply, Request, ResponseCode,
};
use docker_dns::name::Proto;

fn handler() -> Handler {
    Handler {
        root_domain: "xxx.yy".to_string(),
        ttl: 30,
        prefer_network: None,
        docker: true,
        fallback: false,
    }
}

fn name(text: &str) -> DnsName {
    let labels = text.split('.').map(|l| l.as_bytes().to_vec()).collect();
    DnsName::new(labels).unwrap()
}

fn header() -> Header {
    Header {
        id: 77,
        message_type: MessageType::Query,
        op_code: OpCode::Query,
        authoritative: false,
        truncated: false,
        recursion_desired: true,
        recursion_available: false,
        authentic_data: true,
        checking_disabled: true,
        response_code: ResponseCode::NoError,
    }
}

fn request(text: &str, qtype: RecordType) -> Request {
    Request { header: header(), name: name(text), qtype }
}

fn weft() -> Resolved {
    Resolved {
        ips: vec![IpAddr::V6(5), IpAddr::V4(1), IpAddr::V4(2), IpAddr::V6(6)],
        ports: vec![(80, Proto::Tcp), (443, Proto::Tcp), (53, Proto::Udp)],
        labels: Arc::new(Labels::new()),
    }
}

fn reply(text: &str, qtype: RecordType, resolved: Option<&Resolved>) -> Reply {
    handler().handle(&request(text, qtype), resolved).unwrap()
}

fn error(code: ResponseCode) -> Reply {
    Reply {
        header: Header {
            message_type: MessageType::Response,
            authentic_data: false,
            response_code: code,
            ..header()
        },
        answers: vec![],
        additionals: vec![],
    }
}

fn success(answers: Vec<Record>, additionals: Vec<Record>) -> Reply {
    Reply {
        header: Header {
            message_type: MessageType::Response,
            authoritative: true,
            authentic_data: false,
            ..header()
        },
        answers,
        additionals,
    }
}

fn record(owner: &str, data: RecordData) -> Record {
    Record { name: name(owner), ttl: 30, data }
}

fn srv(owner: &str, port: u16, target: &str) -> Record {
    record(owner, RecordData::SRV { priority: 0, weight: 0, port, target: name(target) })
}

fn glue(target: &str) -> Vec<Record> {
    vec![
        record(target, RecordData::A(1)),
        record(target, RecordData::A(2)),
        record(target, RecordData::AAAA(5)),
        record(target, RecordData::AAAA(6)),
    ]
}

#[test]
fn addresses_are_answered_by_family() {
    let r = weft();
    assert_eq!(
        reply("weft.xxx.yy", RecordType::A, Some(&r)),
        success(
            vec![
                record("weft.xxx.yy", RecordData::A(1)),
                record("weft.xxx.yy", RecordData::A(2)),
            ],
            vec![]
        )
    );
    assert_eq!(
        reply("weft.xxx.yy", RecordType::AAAA, Some(&r)),
        success(
            vec![
                record("weft.xxx.yy", RecordData::AAAA(5)),
                record("weft.xxx.yy", RecordData::AAAA(6)),
            ],
            vec![]
        )
    );
}

#[test]
fn the_answer_keeps_the_case_of_the_question() {
    assert_eq!(
        reply("WeFt.xXx.YY", RecordType::A, Some(&weft())).answers[0],
        record("WeFt.xXx.YY", RecordData::A(1))
    );
    // The SRV target is in lower case.
    assert_eq!(
        reply("_HTTP._Tcp.WeFt.xXx.YY", RecordType::SRV, Some(&weft())).answers,
        vec![srv("_HTTP._Tcp.WeFt.xXx.YY", 80, "weft.xxx.yy")]
    );
}

#[test]
fn srv_is_answered_with_port_target_and_glue() {
    let r = weft();
    for (owner, port) in [
        ("_http._tcp.weft.xxx.yy", 80),
        ("_https._tcp.weft.xxx.yy", 443),
        ("_grpc._tcp.weft.xxx.yy", 80),
        ("_dns._udp.weft.xxx.yy", 53),
        ("weft.xxx.yy", 80),
    ] {
        assert_eq!(
            reply(owner, RecordType::SRV, Some(&r)),
            success(vec![srv(owner, port, "weft.xxx.yy")], glue("weft.xxx.yy"))
        );
    }
    assert_eq!(
        reply("_http._tcp.a.b.xxx.yy", RecordType::SRV, Some(&r)),
        success(vec![srv("_http._tcp.a.b.xxx.yy", 80, "a.b.xxx.yy")], glue("a.b.xxx.yy"))
    );
}

#[test]
fn names_without_such_records_have_no_data() {
    let r = weft();
    let none = success(vec![], vec![]);
    // A on an SRV name, and types that containers have no records of.
    assert_eq!(reply("_http._tcp.weft.xxx.yy", RecordType::A, Some(&r)), none);
    assert_eq!(reply("_http._tcp.weft.xxx.yy", RecordType::AAAA, Some(&r)), none);
    assert_eq!(reply("weft.xxx.yy", RecordType::Other(15), Some(&r)), none);
    // SRV on a container without a port.
    let portless = Resolved { ports: vec![], ..weft() };
    assert_eq!(reply("_http._tcp.weft.xxx.yy", RecordType::SRV, Some(&portless)), none);
    // A on a container without IPv4 addresses.
    let v6 = Resolved { ips: vec![IpAddr::V6(5)], ..weft() };
    assert_eq!(reply("weft.xxx.yy", RecordType::A, Some(&v6)), none);
}

#[test]
fn unknown_names_inside_the_zone_do_not_exist() {
    let nx = error(ResponseCode::NXDomain);
    for qtype in [RecordType::A, RecordType::AAAA, RecordType::SRV, RecordType::Other(16)] {
        assert_eq!(reply("weft.xxx.yy", qtype, None), nx);
        assert_eq!(reply("_http._tcp.weft.xxx.yy", qtype, None), nx);
    }
    // The root domain itself and malformed names, whatever resolves.
    for text in ["xxx.yy", "XXX.YY", "_http.weft.xxx.yy", "_http._sctp.weft.xxx.yy", "_http._tcp.xxx.yy"] {
        assert_eq!(reply(text, RecordType::A, Some(&weft())), nx, "{text}");
    }
}

#[test]
fn names_outside_the_zone_are_refused() {
    for text in ["example.com", "weftxxx.yy", "yy", "weft.xxx.yy.com", "xxx.yy.weft"] {
        assert_eq!(reply(text, RecordType::A, Some(&weft())), error(ResponseCode::Refused), "{text}");
    }
    let root = Request { header: header(), name: DnsName::new(vec![]).unwrap(), qtype: RecordType::A };
    assert_eq!(handler().handle(&root, None), Ok(error(ResponseCode::Refused)));
}

#[test]
fn other_operations_are_not_implemented() {
    for (op_code, message_type) in [
        (OpCode::Status, MessageType::Query),
        (OpCode::Notify, MessageType::Query),
        (OpCode::Update, MessageType::Query),
        (OpCode::Query, MessageType::Response),
    ] {
        let mut r = request("weft.xxx.yy", RecordType::A);
        r.header.op_code = op_code;
        r.header.message_type = message_type;
        let mut expected = error(ResponseCode::NotImp);
        expected.header.op_code = op_code;
        assert_eq!(handler().handle(&r, Some(&weft())), Ok(expected));
    }
}

#[test]
fn a_target_that_is_no_name_is_an_error() {
    // These labels have a text, but their text is not that of an ASCII name.
    for label in [&b"we ft"[..], &b"xn--zs9h"[..]] {
        let mut r = request("weft.xxx.yy", RecordType::SRV);
        r.name = DnsName::new(vec![label.to_vec(), b"xxx".to_vec(), b"yy".to_vec()]).unwrap();
        assert_eq!(handler().handle(&r, Some(&weft())), Err(HandleError::TargetName));
        match handler().handle_request(&r, Some(&weft())) {
            Response::Fail(h) => assert_eq!(h, error(ResponseCode::ServFail).header),
            Response::Send(_) => panic!("a reply"),
        }
        // The name is not needed for anything else.
        r.qtype = RecordType::A;
        assert_eq!(handler().handle(&r, Some(&weft())).unwrap().answers.len(), 2);
        r.qtype = RecordType::SRV;
        let portless = Resolved { ports: vec![], ..weft() };
        assert_eq!(handler().handle(&r, Some(&portless)), Ok(success(vec![], vec![])));
        assert_eq!(handler().handle(&r, None), Ok(error(ResponseCode::NXDomain)));
    }
}

#[test]
fn replies_are_sent() {
    let r = request("weft.xxx.yy", RecordType::A);
    match handler().handle_request(&r, Some(&weft())) {
        Response::Send(reply) => assert_eq!(Ok(reply), handler().handle(&r, Some(&weft()))),
        Response::Fail(_) => panic!("no reply"),
    }
}

#[test]
fn requests_are_routed_to_containers() {
    match handler().route(&request("_DNS._udp.CoreDNS.xxx.yy", RecordType::SRV)) {
        Route::Resolve(q) => {
            assert_eq!(q.service.as_deref(), Some("dns"));
            assert_eq!(q.proto, Proto::Udp);
            assert_eq!(q.name, "coredns");
        }
        Route::Reply(_) => panic!("a reply"),
    }
    // Dots at the end and case do not matter.
    for text in ["weft.xxx.yy", "weft.xxx.yy.", "WEFT.xxx.YY.."] {
        match handler().route_text(&header(), text) {
            Route::Resolve(q) => assert_eq!((q.service, q.name.as_str()), (None, "weft")),
            Route::Reply(_) => panic!("a reply"),
        }
    }
}

#[test]
fn names_are_located() {
    let place = |q: &str| match locate(q, "xxx.yy") {
        Place::Inside(s) => s.to_string(),
        Place::Apex => "apex".to_string(),
        Place::Outside => "outside".to_string(),
    };
    assert_eq!(place("weft.xxx.yy"), "weft");
    assert_eq!(place("xxx.yy.xxx.yy"), "xxx.yy");
    assert_eq!(place("é.xxx.yy"), "é");
    assert_eq!(place("xxx.yy"), "apex");
    assert_eq!(place(".xxx.yy"), "outside");
    assert_eq!(place("axxx.yy"), "outside");
    assert_eq!(place("weft.XXX.yy"), "outside");
    assert_eq!(place(""), "outside");
}

#[test]
fn address_records_take_one_family() {
    let owner = name("weft.xxx.yy");
    let ips = vec![IpAddr::V4(9), IpAddr::V6(8), IpAddr::V4(7)];
    let h = Handler { ttl: 5, ..handler() };
    let rec = |data| Record { name: name("weft.xxx.yy"), ttl: 5, data };
    assert_eq!(
        h.address_records(&owner, &ips, RecordType::A),
        vec![rec(RecordData::A(9)), rec(RecordData::A(7))]
    );
    assert_eq!(h.address_records(&owner, &ips, RecordType::AAAA), vec![rec(RecordData::AAAA(8))]);
    assert_eq!(h.address_records(&owner, &ips, RecordType::SRV), vec![]);
    assert_eq!(h.address_records(&owner, &ips, RecordType::Other(28)), vec![]);
}

#[test]
fn the_case_of_the_name_does_not_matter() {
    let pairs: [(&[&[u8]], &[&[u8]]); 4] = [
        (&[b"weft", b"xxx", b"yy"], &[b"WEFT", b"xXx", b"Yy"]),
        (&[b"_http", b"_tcp", b"weft", b"xxx", b"yy"], &[b"_HTTP", b"_TCP", b"Weft", b"XXX", b"YY"]),
        (&[b"xn--zs9h", b"xxx", b"yy"], &[b"XN--ZS9H", b"xxx", b"YY"]),
        (&[b"*", b"a b\xff", b"xxx", b"yy"], &[b"*", b"A B\xff", b"XXX", b"yy"]),
    ];
    for (a, b) in pairs {
        for qtype in [RecordType::A, RecordType::AAAA, RecordType::SRV, RecordType::Other(15)] {
            for resolved in [None, Some(weft())] {
                let ask = |labels: &[&[u8]]| {
                    let name = DnsName::new(labels.iter().map(|l| l.to_vec()).collect()).unwrap();
                    let request = Request { header: header(), name, qtype };
                    let r = handler().handle(&request, resolved.as_ref());
                    (request.name, r)
                };
                match (ask(a), ask(b)) {
                    ((x, Ok(p)), (y, Ok(q))) => {
                        assert_eq!(p.header, q.header);
                        assert_eq!(p.additionals, q.additionals);
                        assert_eq!(p.answers.len(), q.answers.len());
                        for (s, t) in p.answers.iter().zip(&q.answers) {
                            assert_eq!((&s.name, &t.name), (&x, &y));
                            assert_eq!((s.ttl, &s.data), (t.ttl, &t.data));
                        }
                    }
                    ((_, p), (_, q)) => assert_eq!(p, q),
                }
            }
        }
    }
}
