use std::sync::Arc;

use docker_dns::container::{well_known_port, Resolved};
use docker_dns::labels::Labels;
use docker_dns::name::Proto;

fn resolved(ports: &[(u16, Proto)], labels: &[(&str, &str)]) -> Resolved {
    let mut map = Labels::new();
    for (k, v) in labels {
        map.insert(k.to_string(), v.to_string());
    }
    Resolved {
        ips: vec![],
        ports: ports.to_vec(),
        labels: Arc::new(map),
    }
}

#[test]
fn srv_port_prefers_service_label() {
    let r = resolved(
        &[(80, Proto::Tcp)],
        &[("docker-dns.srv.http", "8080"), ("docker-dns.port", "9000")],
    );
    assert_eq!(r.srv_port(Some("http"), Proto::Tcp), Some(8080));
    // Other services fall through to the generic port label.
    assert_eq!(r.srv_port(Some("grpc"), Proto::Tcp), Some(9000));
    assert_eq!(r.srv_port(None, Proto::Tcp), Some(9000));
}

#[test]
fn srv_port_uses_well_known_when_exposed() {
    let r = resolved(&[(80, Proto::Tcp), (443, Proto::Tcp)], &[]);
    assert_eq!(r.srv_port(Some("http"), Proto::Tcp), Some(80));
    assert_eq!(r.srv_port(Some("https"), Proto::Tcp), Some(443));
    // Unknown service: lowest exposed port of that protocol.
    assert_eq!(r.srv_port(Some("grpc"), Proto::Tcp), Some(80));
    assert_eq!(r.srv_port(None, Proto::Tcp), Some(80));
}

#[test]
fn srv_port_respects_protocol() {
    let r = resolved(&[(8080, Proto::Tcp), (53, Proto::Udp)], &[]);
    assert_eq!(r.srv_port(Some("dns"), Proto::Udp), Some(53));
    assert_eq!(r.srv_port(Some("dns"), Proto::Tcp), Some(8080));
    assert_eq!(resolved(&[], &[]).srv_port(Some("http"), Proto::Tcp), None);
}

#[test]
fn srv_port_ignores_invalid_label() {
    let r = resolved(&[(3000, Proto::Tcp)], &[("docker-dns.port", "nope")]);
    assert_eq!(r.srv_port(None, Proto::Tcp), Some(3000));
}

#[test]
fn label_values_are_trimmed_port_numbers() {
    let port = |value: &str| resolved(&[], &[("docker-dns.port", value)]).srv_port(None, Proto::Tcp);
    assert_eq!(port(" 8080\t\n"), Some(8080));
    assert_eq!(port("\u{a0}8080\u{3000}"), Some(8080));
    assert_eq!(port("+8080"), Some(8080));
    assert_eq!(port("00080"), Some(80));
    assert_eq!(port("0"), Some(0));
    assert_eq!(port("65535"), Some(65535));
    assert_eq!(port("65536"), None);
    assert_eq!(port("99999999999999999999999999"), None);
    assert_eq!(port("-1"), None);
    assert_eq!(port("80 80"), None);
    assert_eq!(port("+"), None);
    assert_eq!(port(""), None);
}

#[test]
fn labels_hold_for_both_protocols() {
    let r = resolved(&[(53, Proto::Udp)], &[("docker-dns.srv.dns", "5353")]);
    assert_eq!(r.srv_port(Some("dns"), Proto::Tcp), Some(5353));
    assert_eq!(r.srv_port(Some("dns"), Proto::Udp), Some(5353));
    // Without a service the service label says nothing.
    assert_eq!(r.srv_port(None, Proto::Udp), Some(53));
    assert_eq!(r.srv_port(None, Proto::Tcp), None);
}

#[test]
fn lowest_port_wins_in_any_order() {
    let r = resolved(&[(9000, Proto::Tcp), (22, Proto::Udp), (3000, Proto::Tcp)], &[]);
    assert_eq!(r.srv_port(Some("ssh"), Proto::Tcp), Some(3000));
    assert_eq!(r.srv_port(Some("ssh"), Proto::Udp), Some(22));
}

#[test]
fn well_known_ports_are_the_usual_ones() {
    let table = [
        ("http", 80),
        ("https", 443),
        ("ldap", 389),
        ("ldaps", 636),
        ("smtp", 25),
        ("submission", 587),
        ("smtps", 465),
        ("imap", 143),
        ("imaps", 993),
        ("pop3", 110),
        ("pop3s", 995),
        ("ssh", 22),
        ("dns", 53),
        ("postgresql", 5432),
        ("mysql", 3306),
        ("redis", 6379),
        ("amqp", 5672),
        ("mqtt", 1883),
    ];
    for (service, port) in table {
        assert_eq!(well_known_port(service), Some(port));
        // Above a lower port, the well-known one is still picked if exposed.
        let r = resolved(&[(1, Proto::Tcp), (port, Proto::Tcp)], &[]);
        assert_eq!(r.srv_port(Some(service), Proto::Tcp), Some(port));
    }
    assert_eq!(well_known_port("HTTP"), None);
    assert_eq!(well_known_port(""), None);
}

#[test]
fn a_later_label_replaces_an_earlier_one() {
    let r = resolved(&[], &[("docker-dns.port", "1"), ("docker-dns.port", "2")]);
    assert_eq!(r.srv_port(None, Proto::Tcp), Some(2));
    assert_eq!(r.labels.get("docker-dns.port").map(|v| v.as_str()), Some("2"));
    assert_eq!(r.labels.get("docker-dns"), None);
}
