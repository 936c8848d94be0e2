use docker_dns::addr::{parse_ip, parse_socket_addr, IpAddr, SocketAddr};
use docker_dns::name::Proto;
use docker_dns::order::sort_dedup;
use hickory_proto::rr::rdata::A;

fn v4(ip: u32, port: u16) -> Option<SocketAddr> {
    Some(SocketAddr { ip: IpAddr::V4(ip), port, scope_id: 0 })
}

fn v6(ip: u128, port: u16, scope_id: u32) -> Option<SocketAddr> {
    Some(SocketAddr { ip: IpAddr::V6(ip), port, scope_id })
}

#[test]
fn ip_addresses_are_read() {
    assert_eq!(parse_ip("172.18.0.5"), Some(IpAddr::V4(0xac12_0005)));
    assert_eq!(parse_ip("0.0.0.0"), Some(IpAddr::V4(0)));
    assert_eq!(parse_ip("255.255.255.255"), Some(IpAddr::V4(u32::MAX)));
    assert_eq!(parse_ip("::1"), Some(IpAddr::V6(1)));
    assert_eq!(
        parse_ip("fd00:1::2"),
        Some(IpAddr::V6(0xfd00_0001_0000_0000_0000_0000_0000_0002))
    );
    assert_eq!(
        parse_ip("::ffff:1.2.3.4"),
        Some(IpAddr::V6(0xffff_0102_0304))
    );
}

#[test]
fn other_texts_are_no_ip_addresses() {
    for bad in [
        "", "weft", "1.2.3", "1.2.3.4.5", "1.2.3.256", "01.2.3.4", "1.2.3.04", "1.2.3.4 ", " 1.2.3.4",
        "1.2.3.", ".1.2.3", "1..2.3", "1.2.3.4:53", "+1.2.3.4", "0001.2.3.4", "1.2.3.0x4", "[::1]",
        "::1%3", "::1/128", ":::", "12345::",
    ] {
        assert_eq!(parse_ip(bad), None, "{bad:?}");
    }
}

#[test]
fn socket_addresses_are_read() {
    assert_eq!(parse_socket_addr("0.0.0.0:53"), v4(0, 53));
    assert_eq!(parse_socket_addr("127.0.0.11:5353"), v4(0x7f00_000b, 5353));
    assert_eq!(parse_socket_addr("1.2.3.4:0"), v4(0x0102_0304, 0));
    assert_eq!(parse_socket_addr("1.2.3.4:00053"), v4(0x0102_0304, 53));
    assert_eq!(parse_socket_addr("1.2.3.4:65535"), v4(0x0102_0304, 65535));
    assert_eq!(parse_socket_addr("[::]:53"), v6(0, 53, 0));
    assert_eq!(parse_socket_addr("[::1]:5353"), v6(1, 5353, 0));
    assert_eq!(
        parse_socket_addr("[fe80::1%3]:53"),
        v6(0xfe80_0000_0000_0000_0000_0000_0000_0001, 53, 3)
    );
    assert_eq!(parse_socket_addr("[::1%4294967295]:53"), v6(1, 53, u32::MAX));
}

#[test]
fn other_texts_are_no_socket_addresses() {
    for bad in [
        "", ":", ":53", "1.2.3.4", "1.2.3.4:", "1.2.3.4:65536", "1.2.3.4:+53", "1.2.3.4:-1", "1.2.3.4: 53",
        "1.2.3.4:53 ", "::1:53", "::1", "[::1]", "[::1]:", "[::1:53", "::1]:53", "[1.2.3.4]:53", "[]:53",
        "[::1%]:53", "[::1%eth0]:53", "[::1%4294967296]:53", "[::1%1%2]:53", "localhost:53", "[:53",
    ] {
        assert_eq!(parse_socket_addr(bad), None, "{bad:?}");
    }
}

#[test]
fn addresses_are_sorted_without_duplicates() {
    let a = [IpAddr::V6(2), IpAddr::V4(9), IpAddr::V4(u32::MAX), IpAddr::V4(9), IpAddr::V6(1)];
    let sorted = vec![IpAddr::V4(9), IpAddr::V4(u32::MAX), IpAddr::V6(1), IpAddr::V6(2)];
    assert_eq!(sort_dedup(&a.to_vec()), sorted);
    // The order and the number of times do not matter.
    let mut b = a.to_vec();
    b.reverse();
    b.push(IpAddr::V6(2));
    assert_eq!(sort_dedup(&b), sorted);
    assert_eq!(sort_dedup(&Vec::<IpAddr>::new()), Vec::new());
}

#[test]
fn ports_are_sorted_as_pairs() {
    let all = vec![
        (80, Proto::Udp), (443, Proto::Tcp), (80, Proto::Tcp), (80, Proto::Udp), (53, Proto::Udp),
    ];
    let mut expected = all.clone();
    expected.sort();
    expected.dedup();
    assert_eq!(sort_dedup(&all), expected);
    assert_eq!(expected[1], (80, Proto::Tcp));
}

#[test]
fn dotted_addresses_are_read_as_elsewhere() {
    let parts = ["", "0", "00", "1", "01", "9", "10", "099", "100", "199", "255", "256", "300", "1000", "a", "+1", "٣"];
    for a in parts {
        for b in parts {
            for text in [
                format!("{a}.{b}.3.4"), format!("1.{a}.{b}.4"), format!("1.2.{a}.{b}"), format!("{a}.{b}.1"),
                format!("1.2.3.{a}.{b}"), format!("{a}{b}"),
            ] {
                let expected = text.parse::<A>().ok().map(|v| IpAddr::V4(u32::from(v.0)));
                assert_eq!(parse_ip(&text), expected, "{text:?}");
            }
        }
    }
}
