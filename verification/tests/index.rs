use docker_dns::addr::IpAddr;
use docker_dns::index::{ContainerIndex, ContainerSummary, Network, Port, PortType};
use docker_dns::labels::Labels;
use docker_dns::name::Proto;

fn network(name: &str, aliases: &[&str], v4: &str, v6: &str) -> Network {
    Network {
        name: name.to_string(),
        aliases: Some(aliases.iter().map(|a| a.to_string()).collect()),
        ip_address: Some(v4.to_string()),
        global_ipv6_address: Some(v6.to_string()),
    }
}

fn container(names: &[&str], networks: Vec<Network>) -> ContainerSummary {
    ContainerSummary {
        names: Some(names.iter().map(|n| n.to_string()).collect()),
        labels: None,
        ports: None,
        networks: Some(networks),
    }
}

fn web() -> ContainerSummary {
    let mut labels = Labels::new();
    labels.insert("com.docker.compose.service".to_string(), "Weft".to_string());
    labels.insert("docker-dns.port".to_string(), "8080".to_string());
    ContainerSummary {
        labels: Some(labels),
        ports: Some(vec![
            Port { private_port: 443, typ: Some(PortType::Tcp) },
            Port { private_port: 53, typ: Some(PortType::Udp) },
            Port { private_port: 443, typ: Some(PortType::Tcp) },
            Port { private_port: 9, typ: Some(PortType::Sctp) },
            Port { private_port: 7, typ: Some(PortType::Empty) },
            Port { private_port: 5, typ: None },
            Port { private_port: 53, typ: Some(PortType::Tcp) },
        ]),
        ..container(
            &["//Stack-Weft-1", "/other/Weft-Link"],
            vec![
                network("Front", &["Web", "www"], "172.18.0.5", "fd00::5"),
                network("back", &["db-client"], "10.0.0.5", ""),
            ],
        )
    }
}

fn v4(a: u8, b: u8, c: u8, d: u8) -> IpAddr {
    IpAddr::V4(u32::from_be_bytes([a, b, c, d]))
}

fn ips(index: &ContainerIndex, name: &str, prefer: Option<&str>) -> Option<Vec<IpAddr>> {
    index.lookup(name, prefer).map(|r| r.ips)
}

const FD00_5: IpAddr = IpAddr::V6(0xfd00_0000_0000_0000_0000_0000_0000_0005);

#[test]
fn containers_have_all_their_names() {
    let index = ContainerIndex::build(vec![web()]);
    for name in ["stack-weft-1", "other/weft-link", "weft", "web", "www", "db-client"] {
        assert!(index.lookup(name, None).is_some(), "{name}");
    }
    // Names are kept in lower case and without slashes in front.
    for name in ["Weft", "WEB", "/stack-weft-1", "stack-weft", "front", ""] {
        assert!(index.lookup(name, None).is_none(), "{name}");
    }
    assert!(ContainerIndex::build(vec![]).lookup("weft", None).is_none());
}

#[test]
fn ports_are_tcp_and_udp_in_order_and_once() {
    let r = ContainerIndex::build(vec![web()]).lookup("weft", None).unwrap();
    assert_eq!(r.ports, vec![(53, Proto::Tcp), (53, Proto::Udp), (443, Proto::Tcp)]);
}

#[test]
fn labels_come_along() {
    let r = ContainerIndex::build(vec![web()]).lookup("weft", None).unwrap();
    assert_eq!(r.labels.get("docker-dns.port").map(|s| s.as_str()), Some("8080"));
    // Label values keep their case.
    assert_eq!(r.labels.get("com.docker.compose.service").map(|s| s.as_str()), Some("Weft"));
    assert_eq!(r.srv_port(None, Proto::Tcp), Some(8080));
}

#[test]
fn all_addresses_are_returned_once_and_in_order() {
    let index = ContainerIndex::build(vec![container(
        &["/a"],
        vec![
            network("n1", &[], "172.18.0.5", "fd00::5"),
            network("n2", &[], "10.0.0.5", "fd00::5"),
            network("n3", &[], "172.18.0.5", "fd00::1"),
        ],
    )]);
    assert_eq!(
        ips(&index, "a", None),
        Some(vec![
            v4(10, 0, 0, 5),
            v4(172, 18, 0, 5),
            IpAddr::V6(0xfd00_0000_0000_0000_0000_0000_0000_0001),
            FD00_5,
        ])
    );
}

#[test]
fn preferred_network_gives_the_only_addresses() {
    let index = ContainerIndex::build(vec![web()]);
    assert_eq!(ips(&index, "weft", Some("front")), Some(vec![v4(172, 18, 0, 5), FD00_5]));
    assert_eq!(ips(&index, "weft", Some("back")), Some(vec![v4(10, 0, 0, 5)]));
    let all = Some(vec![v4(10, 0, 0, 5), v4(172, 18, 0, 5), FD00_5]);
    assert_eq!(ips(&index, "weft", None), all);
    // The container is not attached to it.
    assert_eq!(ips(&index, "weft", Some("elsewhere")), all);
    // Network names are kept in lower case.
    assert_eq!(ips(&index, "weft", Some("Front")), all);
}

#[test]
fn preferred_network_without_an_address_gives_none() {
    let index = ContainerIndex::build(vec![container(
        &["/a"],
        vec![network("None", &[], "", ""), network("n", &[], "10.0.0.1", "bad")],
    )]);
    // Attached, but without an address there: none from elsewhere.
    assert_eq!(ips(&index, "a", Some("none")), Some(vec![]));
    assert_eq!(ips(&index, "a", Some("n")), Some(vec![v4(10, 0, 0, 1)]));
    assert_eq!(ips(&index, "a", Some("other")), Some(vec![v4(10, 0, 0, 1)]));
    assert_eq!(ips(&index, "a", None), Some(vec![v4(10, 0, 0, 1)]));
}

#[test]
fn one_name_for_two_networks_means_the_first_with_an_address() {
    let index = ContainerIndex::build(vec![container(
        &["/a"],
        vec![
            network("n", &[], "", ""),
            network("N", &[], "10.0.0.2", ""),
            network("other", &[], "10.0.0.3", ""),
        ],
    )]);
    assert_eq!(ips(&index, "a", Some("n")), Some(vec![v4(10, 0, 0, 2)]));
}

#[test]
fn order_of_networks_does_not_matter() {
    let nets = |reverse: bool| {
        let mut nets = vec![
            network("n1", &[], "10.0.0.9", "fd00::5"),
            network("n2", &[], "10.0.0.1", ""),
            network("n0", &[], "", ""),
        ];
        if reverse {
            nets.reverse();
        }
        ContainerIndex::build(vec![container(&["/a"], nets)])
    };
    for prefer in [None, Some("n0"), Some("n1"), Some("n2"), Some("n3")] {
        assert_eq!(ips(&nets(false), "a", prefer), ips(&nets(true), "a", prefer));
    }
}

#[test]
fn a_container_without_addresses_is_still_known() {
    let index = ContainerIndex::build(vec![ContainerSummary {
        networks: None,
        ..container(&["/a"], vec![])
    }]);
    let r = index.lookup("a", Some("n")).unwrap();
    assert!(r.ips.is_empty() && r.ports.is_empty());
    assert_eq!(r.labels.get("docker-dns.port"), None);
}

#[test]
fn the_first_container_of_a_name_decides() {
    let index = ContainerIndex::build(vec![
        container(&["/a"], vec![network("n", &["shared"], "10.0.0.1", "")]),
        container(&["/b"], vec![network("n", &["Shared"], "10.0.0.2", "")]),
    ]);
    assert_eq!(ips(&index, "shared", None), Some(vec![v4(10, 0, 0, 1)]));
    assert_eq!(ips(&index, "b", None), Some(vec![v4(10, 0, 0, 2)]));
}

#[test]
fn missing_lists_are_empty() {
    let index = ContainerIndex::build(vec![ContainerSummary {
        names: None,
        labels: None,
        ports: None,
        networks: Some(vec![Network {
            name: "n".to_string(),
            aliases: None,
            ip_address: None,
            global_ipv6_address: None,
        }]),
    }]);
    assert_eq!(index.entries.len(), 1);
    assert!(index.lookup("", None).is_none());
}
