use docker_dns::name::{parse_name, ParsedName, Proto};

#[test]
fn parse_plain_name() {
    assert_eq!(
        parse_name("weft"),
        Some(ParsedName {
            service: None,
            proto: Proto::Tcp,
            name: "weft"
        })
    );
    // Dots inside container names stay part of the name.
    assert_eq!(parse_name("a.b").unwrap().name, "a.b");
}

#[test]
fn parse_srv_name() {
    assert_eq!(
        parse_name("_http._tcp.weft"),
        Some(ParsedName {
            service: Some("http"),
            proto: Proto::Tcp,
            name: "weft"
        })
    );
    assert_eq!(parse_name("_dns._udp.coredns").unwrap().proto, Proto::Udp);
    assert_eq!(
        parse_name("_ldap._tcp.ldap.stack").unwrap().name,
        "ldap.stack"
    );
}

#[test]
fn parse_rejects_malformed_srv() {
    assert_eq!(parse_name("_http._sctp.weft"), None);
    assert_eq!(parse_name("_http.weft"), None);
    assert_eq!(parse_name("_http._tcp"), None);
    assert_eq!(parse_name("_._tcp.weft"), None);
    assert_eq!(parse_name(""), None);
}

#[test]
fn parse_edges() {
    // A name that begins with a dot has no SRV prefix.
    assert_eq!(parse_name("._tcp").unwrap().name, "._tcp");
    assert_eq!(parse_name("_http._tcp."), None);
    assert_eq!(parse_name("_"), None);
    assert_eq!(parse_name("a_b._tcp.c").unwrap().service, None);
    let odd = parse_name("_x._udp..y").unwrap();
    assert_eq!((odd.service, odd.proto, odd.name), (Some("x"), Proto::Udp, ".y"));
    // Letters beyond ASCII are letters.
    let wide = parse_name("_dienst._tcp.b\u{fc}cher").unwrap();
    assert_eq!((wide.service, wide.name), (Some("dienst"), "b\u{fc}cher"));
}

#[test]
fn srv_names_come_apart_again() {
    let services = ["http", "x-y", "\u{e9}"];
    let names = ["weft", "a.b", "_x", "."];
    for service in services {
        for name in names {
            let text = format!("_{service}._udp.{name}");
            assert_eq!(
                parse_name(&text),
                Some(ParsedName {
                    service: Some(service),
                    proto: Proto::Udp,
                    name
                })
            );
        }
    }
}
