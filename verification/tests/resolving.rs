use std::sync::Arc;

use docker_dns::addr::IpAddr;
use docker_dns::dns::DnsName;
use docker_dns::docker::{DockerResolver, IndexAction, IndexEvent, NANOS_PER_SEC};
use docker_dns::handler::{Handler, Route};
use docker_dns::index::{ContainerIndex, ContainerSummary, Network};
use docker_dns::message::{
    Header, MessageType, OpCode, RecordData, RecordType, Request, ResponseCode,
};
use docker_dns::name::Proto;
use docker_dns::resolve::{ResolveAction, ResolveEvent};

fn handler(docker: bool, fallback: bool) -> Handler {
    Handler {
        root_domain: "xxx.yy".to_string(),
        ttl: 30,
        prefer_network: Some("front".to_string()),
        docker,
        fallback,
    }
}

fn list() -> Vec<ContainerSummary> {
    let network = |name: &str, ip: &str| Network {
        name: name.to_string(),
        aliases: None,
        ip_address: Some(ip.to_string()),
        global_ipv6_address: None,
    };
    vec![ContainerSummary {
        names: Some(vec!["/weft".to_string()]),
        labels: None,
        ports: None,
        networks: Some(vec![network("back", "0.0.0.1"), network("Front", "0.0.0.2")]),
    }]
}

fn index() -> Arc<ContainerIndex> {
    Arc::new(ContainerIndex::build(list()))
}

fn step(h: &Handler, name: &str, event: ResolveEvent) -> String {
    match h.resolve(name, event) {
        ResolveAction::AskDocker => "docker".to_string(),
        ResolveAction::AskFallback(t) => format!("fallback {t}"),
        ResolveAction::Done(None) => "unknown".to_string(),
        ResolveAction::Done(Some(r)) => format!("{:?}", r.ips),
    }
}

#[test]
fn docker_is_asked_first() {
    assert_eq!(step(&handler(true, true), "weft", ResolveEvent::Begin), "docker");
    assert_eq!(step(&handler(true, false), "weft", ResolveEvent::Begin), "docker");
    assert_eq!(step(&handler(false, true), "weft", ResolveEvent::Begin), "fallback weft.");
    assert_eq!(step(&handler(false, false), "weft", ResolveEvent::Begin), "unknown");
}

#[test]
fn a_known_name_is_answered_from_docker() {
    // Only the preferred network counts.
    for fallback in [true, false] {
        assert_eq!(
            step(&handler(true, fallback), "weft", ResolveEvent::Index(index())),
            "[V4(2)]"
        );
    }
}

#[test]
fn the_fallback_is_asked_second() {
    assert_eq!(step(&handler(true, true), "other", ResolveEvent::Index(index())), "fallback other.");
    assert_eq!(step(&handler(true, true), "weft", ResolveEvent::IndexFailed), "fallback weft.");
    assert_eq!(step(&handler(true, false), "other", ResolveEvent::Index(index())), "unknown");
    assert_eq!(step(&handler(true, false), "weft", ResolveEvent::IndexFailed), "unknown");
}

#[test]
fn the_fallback_gives_addresses_only() {
    let h = handler(true, true);
    let ips = vec![IpAddr::V6(9), IpAddr::V4(7), IpAddr::V4(7)];
    match h.resolve("weft", ResolveEvent::Addresses(ips.clone())) {
        ResolveAction::Done(Some(r)) => {
            // As they come, in their order.
            assert_eq!(r.ips, ips);
            assert!(r.ports.is_empty());
            assert_eq!(r.srv_port(Some("http"), Proto::Tcp), None);
        }
        _ => panic!("not resolved"),
    }
    assert_eq!(step(&h, "weft", ResolveEvent::Addresses(vec![])), "unknown");
    assert_eq!(step(&h, "weft", ResolveEvent::LookupFailed), "unknown");
}

#[test]
fn a_container_query_is_served_end_to_end() {
    let h = handler(true, false);
    let labels = ["Weft", "xxx", "yy"].iter().map(|l| l.as_bytes().to_vec()).collect();
    let request = Request {
        header: Header {
            id: 1,
            message_type: MessageType::Query,
            op_code: OpCode::Query,
            authoritative: false,
            truncated: false,
            recursion_desired: false,
            recursion_available: false,
            authentic_data: false,
            checking_disabled: false,
            response_code: ResponseCode::NoError,
        },
        name: DnsName::new(labels).unwrap(),
        qtype: RecordType::A,
    };
    let question = match h.route(&request) {
        Route::Resolve(q) => q,
        Route::Reply(_) => panic!("a reply"),
    };
    let found = match h.resolve(&question.name, ResolveEvent::Index(index())) {
        ResolveAction::Done(found) => found,
        _ => panic!("not resolved"),
    };
    let reply = h.handle(&request, found.as_ref()).unwrap();
    assert_eq!(reply.header.response_code, ResponseCode::NoError);
    assert_eq!(reply.answers.len(), 1);
    assert_eq!(reply.answers[0].data, RecordData::A(2));
    assert_eq!(reply.answers[0].name, request.name);
    assert_eq!(reply.answers[0].ttl, 30);
}

fn is_list(action: IndexAction) -> bool {
    matches!(action, IndexAction::List)
}

fn used(action: IndexAction) -> Arc<ContainerIndex> {
    match action {
        IndexAction::Use(index) => index,
        _ => panic!("no index"),
    }
}

#[test]
fn an_index_is_cached_for_its_time() {
    let mut r = DockerResolver::new(2);
    assert!(is_list(r.index(0, IndexEvent::Begin)));
    let start = 5 * NANOS_PER_SEC;
    let index = used(r.index(start, IndexEvent::Listed(list())));
    assert!(index.lookup("weft", None).is_some());
    for now in [start, start + 1, start + 2 * NANOS_PER_SEC - 1, 0] {
        // The same index, not another one.
        assert!(Arc::ptr_eq(&index, &used(r.index(now, IndexEvent::Begin))));
    }
    assert!(is_list(r.index(start + 2 * NANOS_PER_SEC, IndexEvent::Begin)));
    assert!(is_list(r.index(u128::MAX, IndexEvent::Begin)));
}

#[test]
fn a_new_list_replaces_the_cached_index() {
    let mut r = DockerResolver::new(2);
    used(r.index(0, IndexEvent::Listed(list())));
    used(r.index(10, IndexEvent::Listed(vec![])));
    assert!(used(r.index(11, IndexEvent::Begin)).entries.is_empty());
    assert!(is_list(r.index(10 + 2 * NANOS_PER_SEC, IndexEvent::Begin)));
}

#[test]
fn a_failure_leaves_the_cache_alone() {
    let mut r = DockerResolver::new(2);
    assert!(matches!(r.index(0, IndexEvent::ListFailed), IndexAction::Fail));
    assert!(is_list(r.index(1, IndexEvent::Begin)));
    let index = used(r.index(2, IndexEvent::Listed(list())));
    assert!(matches!(r.index(3, IndexEvent::ListFailed), IndexAction::Fail));
    assert!(Arc::ptr_eq(&index, &used(r.index(4, IndexEvent::Begin))));
}

#[test]
fn zero_seconds_switch_the_cache_off() {
    let mut r = DockerResolver::new(0);
    used(r.index(7, IndexEvent::Listed(list())));
    assert!(is_list(r.index(7, IndexEvent::Begin)));
}

#[test]
fn the_longest_cache_time_does_not_overflow() {
    let mut r = DockerResolver::new(u64::MAX);
    used(r.index(0, IndexEvent::Listed(list())));
    let limit = u128::from(u64::MAX) * NANOS_PER_SEC;
    used(r.index(limit - 1, IndexEvent::Begin));
    assert!(is_list(r.index(limit, IndexEvent::Begin)));
}
