//! Addresses and their text.

use hickory_proto::rr::rdata::AAAA;
use vstd::prelude::*;
use vstd::string::*;

use crate::text::{chars_of, find_from, find_last, parse_digits};

verus! {

/// An IP address; the number is the address with its first octet on top.
#[derive(Clone, Copy, Debug, PartialEq, Eq, Structural)]
pub enum IpAddr {
    V4(u32),
    V6(u128),
}

/// An IP address and a port. `scope_id` is the zone of an IPv6 address, 0
/// where none is given.
#[derive(Clone, Copy, Debug, PartialEq, Eq, Structural)]
pub struct SocketAddr {
    pub ip: IpAddr,
    pub port: u16,
    pub scope_id: u32,
}

/// The parts of `s` between the occurrences of `c`.
pub open spec fn fields(s: Seq<char>, c: char) -> Seq<Seq<char>>
    decreases s.len(),
{
    proof {
        s.index_of_first_ensures(c);
    }
    match s.index_of_first(c) {
        None => seq![s],
        Some(i) => seq![s.take(i)] + fields(s.skip(i + 1), c),
    }
}

/// One number of the dotted form: one to three decimal digits, no leading
/// zero, at most 255.
pub open spec fn octet(s: Seq<char>) -> Option<nat> {
    if crate::text::all_digits(s) && s.len() <= 3 && (s.len() == 1 || s[0] != '0') {
        crate::text::at_most(crate::text::digits(s), 255)
    } else {
        None
    }
}

/// The IPv4 address that `s` writes: four octets in decimal, with dots
/// between them.
pub open spec fn ipv4_text(s: Seq<char>) -> Option<u32> {
    let f = fields(s, '.');
    if f.len() == 4 {
        match (octet(f[0]), octet(f[1]), octet(f[2]), octet(f[3])) {
            (Some(a), Some(b), Some(c), Some(d)) => Some(
                (a * 0x100_0000 + b * 0x1_0000 + c * 0x100 + d) as u32,
            ),
            _ => None,
        }
    } else {
        None
    }
}

/// Reads one number of the dotted form.
fn parse_octet(s: &str) -> (r: Option<u8>)
    ensures
        match r {
            Some(v) => octet(s@) == Some(v as nat),
            None => octet(s@) is None,
        },
{
    let chars = chars_of(s);
    assert(s@.skip(0) == s@);
    if chars.len() > 3 || (chars.len() > 1 && chars[0] == '0') {
        return None;
    }
    match parse_digits(&chars, 0, 255) {
        Some(v) => Some(v as u8),
        None => None,
    }
}

/// The parts of `s` between the occurrences of `c`.
fn split<'a>(s: &'a str, c: char) -> (r: Vec<&'a str>)
    ensures
        r@.len() == fields(s@, c).len(),
        forall|i: int| 0 <= i < r@.len() ==> (#[trigger] r@[i])@ == fields(s@, c)[i],
{
    let chars = chars_of(s);
    let ghost all = fields(s@, c);
    let mut r: Vec<&'a str> = Vec::new();
    let mut from: usize = 0;
    assert(s@.skip(0) == s@);
    loop
        invariant
            chars@ == s@,
            all == fields(s@, c),
            from <= s@.len(),
            r@.len() + fields(s@.skip(from as int), c).len() == all.len(),
            forall|i: int| 0 <= i < r@.len() ==> (#[trigger] r@[i])@ == all[i],
            forall|i: int|
                0 <= i < fields(s@.skip(from as int), c).len() ==> #[trigger] fields(
                    s@.skip(from as int),
                    c,
                )[i] == all[r@.len() + i],
        decreases s@.len() - from,
    {
        let ghost rest = s@.skip(from as int);
        let ghost n = r@.len();
        proof {
            rest.index_of_first_ensures(c);
        }
        match find_from(&chars, c, from) {
            Some(k) => {
                let part = s.substring_char(from, k);
                assert(part@ =~= rest.take(k - from));
                assert(s@.skip(k + 1) =~= rest.skip(k - from + 1));
                let ghost tail = fields(s@.skip(k + 1), c);
                assert(fields(rest, c) == seq![rest.take(k - from)] + tail);
                assert(fields(rest, c)[0] == part@);
                r.push(part);
                assert(k < chars.len());
                from = k + 1;
                assert forall|i: int| 0 <= i < tail.len() implies #[trigger] tail[i] == all[n + 1
                    + i] by {
                    assert(fields(rest, c)[i + 1] == tail[i]);
                }
            },
            None => {
                let part = s.substring_char(from, chars.len());
                assert(part@ =~= rest);
                assert(fields(rest, c) == seq![rest]);
                assert(fields(rest, c)[0] == rest);
                r.push(part);
                return r;
            },
        }
    }
}

/// Reads an IPv4 address.
fn parse_ipv4(s: &str) -> (r: Option<u32>)
    ensures
        r == ipv4_text(s@),
{
    let f = split(s, '.');
    if f.len() != 4 {
        return None;
    }
    match (parse_octet(f[0]), parse_octet(f[1]), parse_octet(f[2]), parse_octet(f[3])) {
        (Some(a), Some(b), Some(c), Some(d)) => Some(
            a as u32 * 0x100_0000 + b as u32 * 0x1_0000 + c as u32 * 0x100 + d as u32,
        ),
        _ => None,
    }
}

/// The IPv6 address that a text writes.
pub uninterp spec fn ipv6_text(s: Seq<char>) -> Option<u128>;

/// `AAAA::from_str` (`str::parse` into `AAAA`) hands the text to `Ipv6Addr`;
/// what it reads is a function of the text alone. The number is `u128::from`
/// of the address, first octet on top.
#[verifier::external_body]
fn parse_ipv6(s: &str) -> (r: Option<u128>)
    ensures
        r == ipv6_text(s@),
{
    s.parse::<AAAA>().ok().map(|a| u128::from(a.0))
}

/// The IP address that `s` writes, IPv4 first.
pub open spec fn ip_text(s: Seq<char>) -> Option<IpAddr> {
    match ipv4_text(s) {
        Some(v) => Some(IpAddr::V4(v)),
        None => match ipv6_text(s) {
            Some(v) => Some(IpAddr::V6(v)),
            None => None,
        },
    }
}

/// Reads an IP address.
pub fn parse_ip(s: &str) -> (r: Option<IpAddr>)
    ensures
        r == ip_text(s@),
{
    match parse_ipv4(s) {
        Some(v) => Some(IpAddr::V4(v)),
        None => match parse_ipv6(s) {
            Some(v) => Some(IpAddr::V6(v)),
            None => None,
        },
    }
}

/// An IPv6 address, optionally followed by `%` and a decimal zone number.
pub open spec fn scoped_text(s: Seq<char>) -> Option<(u128, u32)> {
    match s.index_of_last('%') {
        None => match ipv6_text(s) {
            Some(v) => Some((v, 0)),
            None => None,
        },
        Some(i) => match (
            ipv6_text(s.take(i)),
            crate::text::at_most(crate::text::digits(s.skip(i + 1)), u32::MAX as nat),
        ) {
            (Some(v), Some(scope)) => Some((v, scope as u32)),
            _ => None,
        },
    }
}

/// The socket address that `s` writes: `<IPv4>:<port>` or `[<IPv6>]:<port>`,
/// the port being a decimal number.
pub open spec fn socket_text(s: Seq<char>) -> Option<SocketAddr> {
    match s.index_of_last(':') {
        None => None,
        Some(i) => {
            let host = s.take(i);
            match crate::text::at_most(crate::text::digits(s.skip(i + 1)), u16::MAX as nat) {
                None => None,
                Some(port) => match ipv4_text(host) {
                    Some(v) => Some(
                        SocketAddr { ip: IpAddr::V4(v), port: port as u16, scope_id: 0 },
                    ),
                    None => if host.len() >= 2 && host[0] == '[' && host.last() == ']' {
                        match scoped_text(host.subrange(1, host.len() - 1)) {
                            Some((v, scope_id)) => Some(
                                SocketAddr { ip: IpAddr::V6(v), port: port as u16, scope_id },
                            ),
                            None => None,
                        }
                    } else {
                        None
                    },
                },
            }
        },
    }
}

/// Reads an IPv6 address with an optional zone number.
fn parse_scoped(s: &str) -> (r: Option<(u128, u32)>)
    ensures
        r == scoped_text(s@),
{
    let chars = chars_of(s);
    proof {
        s@.index_of_last_ensures('%');
    }
    match find_last(&chars, '%') {
        None => match parse_ipv6(s) {
            Some(v) => Some((v, 0)),
            None => None,
        },
        Some(i) => {
            let ip = parse_ipv6(s.substring_char(0, i));
            assert(i < chars.len());
            let scope = parse_digits(&chars, i + 1, 0xffff_ffff);
            match (ip, scope) {
                (Some(v), Some(scope)) => Some((v, scope as u32)),
                _ => None,
            }
        },
    }
}

/// Reads a socket address.
pub fn parse_socket_addr(s: &str) -> (r: Option<SocketAddr>)
    ensures
        r == socket_text(s@),
{
    let chars = chars_of(s);
    proof {
        s@.index_of_last_ensures(':');
    }
    let i = match find_last(&chars, ':') {
        Some(i) => i,
        None => {
            return None;
        },
    };
    let port = match parse_digits(&chars, i + 1, 0xffff) {
        Some(p) => p as u16,
        None => {
            return None;
        },
    };
    let host = s.substring_char(0, i);
    assert(host@ == s@.take(i as int));
    match parse_ipv4(host) {
        Some(v) => Some(SocketAddr { ip: IpAddr::V4(v), port, scope_id: 0 }),
        None => {
            if i >= 2 && chars[0] == '[' && chars[i - 1] == ']' {
                let inner = s.substring_char(1, i - 1);
                assert(inner@ == host@.subrange(1, host@.len() - 1));
                match parse_scoped(inner) {
                    Some((v, scope_id)) => Some(
                        SocketAddr { ip: IpAddr::V6(v), port, scope_id },
                    ),
                    None => None,
                }
            } else {
                None
            }
        },
    }
}

/// Four numbers in decimal, with dots between them.
pub open spec fn dotted_quad(a: nat, b: nat, c: nat, d: nat) -> Seq<char> {
    crate::text::decimal_text(a) + seq!['.'] + (crate::text::decimal_text(b) + seq!['.'] + (
    crate::text::decimal_text(c) + seq!['.'] + crate::text::decimal_text(d)))
}

/// The text of an IPv4 address: its four octets in decimal, first octet on top.
pub open spec fn quad_of(v: u32) -> Seq<char> {
    dotted_quad(
        (v / 0x100_0000) as nat,
        (v / 0x1_0000 % 0x100) as nat,
        (v / 0x100 % 0x100) as nat,
        (v % 0x100) as nat,
    )
}

/// Decimal text has no other character in it.
proof fn decimal_text_lacks(n: nat, k: nat, c: char)
    requires
        !('0' <= c <= '9'),
    ensures
        !crate::text::decimal_text(n).contains(c),
        !crate::text::padded_text(k, n).contains(c),
{
    crate::text::decimal_text_shape(n);
    let t = crate::text::padded_text(k, n);
    assert forall|i: int| 0 <= i < t.len() implies t[i] != c by {
        if i >= k {
            assert(t[i] == crate::text::decimal_text(n)[i - k]);
        }
    }
}

/// The parts of a text are the part in front of the first separator and the
/// parts of the rest.
proof fn fields_of(x: Seq<char>, c: char, rest: Seq<char>)
    requires
        !x.contains(c),
    ensures
        fields(x, c) == seq![x],
        fields(x + seq![c] + rest, c) == seq![x] + fields(rest, c),
{
    let s = x + seq![c] + rest;
    x.index_of_first_ensures(c);
    s.index_of_first_ensures(c);
    assert(s[x.len() as int] == c);
    assert forall|k: int| 0 <= k < x.len() implies s[k] != c by {
        assert(s[k] == x[k]);
        assert(x.contains(x[k]));
    }
    assert(s.index_of_first(c) == Some(x.len() as int));
    assert(s.take(x.len() as int) =~= x);
    assert(s.skip(x.len() as int + 1) =~= rest);
}

/// A text is put together from its parts again.
proof fn fields_come_together(s: Seq<char>, c: char)
    ensures
        fields(s, c).len() >= 1,
        fields(s, c).len() == 1 ==> s == fields(s, c)[0],
        fields(s, c).len() > 1 ==> exists|rest: Seq<char>|
            s == fields(s, c)[0] + seq![c] + rest && #[trigger] fields(rest, c) == fields(
                s,
                c,
            ).drop_first(),
{
    s.index_of_first_ensures(c);
    if let Some(i) = s.index_of_first(c) {
        let rest = s.skip(i + 1);
        assert(s =~= s.take(i) + seq![c] + rest);
        assert(fields(s, c) == seq![s.take(i)] + fields(rest, c));
        assert(fields(s, c).drop_first() =~= fields(rest, c));
        assert(fields(s, c)[0] == s.take(i));
    }
}

/// An octet is written in one way.
proof fn octet_is_written(s: Seq<char>, n: nat)
    ensures
        octet(s) == Some(n) <==> n <= 255 && s == crate::text::decimal_text(n),
{
    crate::text::decimal_text_shape(n);
    if octet(s) == Some(n) {
        let k = crate::text::read_number_was_written(s, n);
        if k > 0 {
            assert(s[0] == '0');
        } else {
            assert(s =~= crate::text::decimal_text(n));
        }
    }
    if n <= 255 && s == crate::text::decimal_text(n) {
        assert(crate::text::padded_text(0, n) =~= s);
        crate::text::written_number_is_read(0, n);
    }
}

/// Reading an IPv4 address inverts writing it: four octets in decimal without
/// leading zeros, with dots between them, give the address with the first
/// octet on top.
pub proof fn written_ipv4_is_read(a: nat, b: nat, c: nat, d: nat)
    requires
        a <= 255,
        b <= 255,
        c <= 255,
        d <= 255,
    ensures
        ipv4_text(dotted_quad(a, b, c, d)) is Some,
        ipv4_text(dotted_quad(a, b, c, d))->0 == a * 0x100_0000 + b * 0x1_0000 + c * 0x100 + d,
{
    let (ta, tb, tc, td) = (
        crate::text::decimal_text(a),
        crate::text::decimal_text(b),
        crate::text::decimal_text(c),
        crate::text::decimal_text(d),
    );
    decimal_text_lacks(a, 0, '.');
    decimal_text_lacks(b, 0, '.');
    decimal_text_lacks(c, 0, '.');
    decimal_text_lacks(d, 0, '.');
    octet_is_written(ta, a);
    octet_is_written(tb, b);
    octet_is_written(tc, c);
    octet_is_written(td, d);
    let s2 = tc + seq!['.'] + td;
    let s1 = tb + seq!['.'] + s2;
    fields_of(td, '.', td);
    fields_of(tc, '.', td);
    fields_of(tb, '.', s2);
    fields_of(ta, '.', s1);
    let f = fields(dotted_quad(a, b, c, d), '.');
    assert(f =~= seq![ta, tb, tc, td]);
}

/// Four parts are put together with three separators.
proof fn four_fields_come_together(s: Seq<char>, c: char)
    requires
        fields(s, c).len() == 4,
    ensures
        s == fields(s, c)[0] + seq![c] + (fields(s, c)[1] + seq![c] + (fields(s, c)[2] + seq![c]
            + fields(s, c)[3])),
{
    let f = fields(s, c);
    let f1 = f.drop_first();
    let f2 = f1.drop_first();
    let f3 = f2.drop_first();
    fields_come_together(s, c);
    let s1 = choose|t: Seq<char>| s == f[0] + seq![c] + t && #[trigger] fields(t, c) == f1;
    fields_come_together(s1, c);
    let s2 = choose|t: Seq<char>| s1 == f1[0] + seq![c] + t && #[trigger] fields(t, c) == f2;
    fields_come_together(s2, c);
    let s3 = choose|t: Seq<char>| s2 == f2[0] + seq![c] + t && #[trigger] fields(t, c) == f3;
    fields_come_together(s3, c);
}

/// An address is made of its octets.
proof fn address_is_its_octets(v: u32, a: nat, b: nat, c: nat, d: nat)
    requires
        a <= 255,
        b <= 255,
        c <= 255,
        d <= 255,
    ensures
        v == a * 0x100_0000 + b * 0x1_0000 + c * 0x100 + d <==> a == v / 0x100_0000 && b == v
            / 0x1_0000 % 0x100 && c == v / 0x100 % 0x100 && d == v % 0x100,
{
}

/// A text is read as an IPv4 address if and only if it is the text of that
/// address.
pub proof fn ipv4_is_read_as_written(s: Seq<char>, v: u32)
    ensures
        ipv4_text(s) == Some(v) <==> s == quad_of(v),
{
    let f = fields(s, '.');
    if ipv4_text(s) == Some(v) {
        let (a, b, c, d) = (octet(f[0])->0, octet(f[1])->0, octet(f[2])->0, octet(f[3])->0);
        octet_is_written(f[0], a);
        octet_is_written(f[1], b);
        octet_is_written(f[2], c);
        octet_is_written(f[3], d);
        four_fields_come_together(s, '.');
        address_is_its_octets(v, a, b, c, d);
    }
    if s == quad_of(v) {
        let (a, b, c, d) = (
            (v / 0x100_0000) as nat,
            (v / 0x1_0000 % 0x100) as nat,
            (v / 0x100 % 0x100) as nat,
            (v % 0x100) as nat,
        );
        written_ipv4_is_read(a, b, c, d);
        address_is_its_octets(v, a, b, c, d);
    }
}

/// An IPv4 address is read from its text; any other text is read as an IPv6
/// address, or as none.
pub proof fn ip_is_read_as_written(s: Seq<char>, v: u32, w: u128)
    ensures
        ip_text(s) == Some(IpAddr::V4(v)) <==> s == quad_of(v),
        ip_text(s) == Some(IpAddr::V6(w)) <==> ipv6_text(s) == Some(w) && forall|x: u32|
            s != #[trigger] quad_of(x),
{
    ipv4_is_read_as_written(s, v);
    if ipv4_text(s) is Some {
        ipv4_is_read_as_written(s, ipv4_text(s)->0);
    }
    assert forall|x: u32| ipv4_text(s) is None implies s != #[trigger] quad_of(x) by {
        ipv4_is_read_as_written(s, x);
    }
}

/// The text of an IPv4 address begins with a digit.
proof fn quad_begins_with_a_digit(v: u32)
    ensures
        quad_of(v).len() > 0,
        '0' <= quad_of(v)[0] <= '9',
{
    crate::text::decimal_text_shape((v / 0x100_0000) as nat);
    assert(quad_of(v)[0] == crate::text::decimal_text((v / 0x100_0000) as nat)[0]);
}

/// What follows the last separator is what stands behind it.
proof fn last_separator(host: Seq<char>, c: char, tail: Seq<char>)
    requires
        !tail.contains(c),
    ensures
        (host + seq![c] + tail).index_of_last(c) == Some(host.len() as int),
        (host + seq![c] + tail).take(host.len() as int) == host,
        (host + seq![c] + tail).skip(host.len() as int + 1) == tail,
{
    let s = host + seq![c] + tail;
    s.index_of_last_ensures(c);
    assert(s[host.len() as int] == c);
    assert(s.contains(c));
    assert forall|i: int| host.len() < i < s.len() implies s[i] != c by {
        assert(s[i] == tail[i - host.len() - 1]);
        assert(tail.contains(s[i]));
    }
    assert(s.take(host.len() as int) =~= host);
    assert(s.skip(host.len() as int + 1) =~= tail);
}

/// The text of an IPv6 address in a socket address, with or without a zone.
pub open spec fn writes_scoped(t: Seq<char>, w: u128, scope: u32) -> bool {
    ||| ipv6_text(t) == Some(w) && scope == 0 && !t.contains('%')
    ||| exists|host: Seq<char>, k: nat|
        t == #[trigger] (host + seq!['%'] + crate::text::padded_text(k, scope as nat)) && ipv6_text(
            host,
        ) == Some(w)
}

/// An IPv6 address is read with its zone if and only if it is written with it.
proof fn scope_is_read_as_written(t: Seq<char>, w: u128, scope: u32)
    ensures
        scoped_text(t) == Some((w, scope)) <==> writes_scoped(t, w, scope),
{
    t.index_of_last_ensures('%');
    if scoped_text(t) == Some((w, scope)) && t.index_of_last('%') is Some {
        let i = t.index_of_last('%')->0;
        let k = crate::text::read_number_was_written(t.skip(i + 1), scope as nat);
        assert(t =~= t.take(i) + seq!['%'] + crate::text::padded_text(k, scope as nat));
    }
    if exists|host: Seq<char>, k: nat|
        t == #[trigger] (host + seq!['%'] + crate::text::padded_text(k, scope as nat)) && ipv6_text(
            host,
        ) == Some(w) {
        let (host, k) = choose|host: Seq<char>, k: nat|
            t == #[trigger] (host + seq!['%'] + crate::text::padded_text(k, scope as nat))
                && ipv6_text(host) == Some(w);
        decimal_text_lacks(scope as nat, k, '%');
        crate::text::written_number_is_read(k, scope as nat);
        last_separator(host, '%', crate::text::padded_text(k, scope as nat));
    }
}

/// `s` writes the socket address `a`: the text of an IPv4 address, or that of
/// an IPv6 address in brackets, then a colon and the port in decimal.
pub open spec fn writes_socket(s: Seq<char>, a: SocketAddr) -> bool {
    exists|host: Seq<char>, k: nat|
        s == #[trigger] (host + seq![':'] + crate::text::padded_text(k, a.port as nat)) && match a.ip {
            IpAddr::V4(v) => host == quad_of(v) && a.scope_id == 0,
            IpAddr::V6(w) => exists|t: Seq<char>|
                host == #[trigger] (seq!['['] + t + seq![']']) && writes_scoped(t, w, a.scope_id),
        }
}

/// A text is read as a socket address if and only if it writes that address.
pub proof fn sockets_are_read_as_written(s: Seq<char>, a: SocketAddr)
    ensures
        socket_text(s) == Some(a) <==> writes_socket(s, a),
{
    s.index_of_last_ensures(':');
    if socket_text(s) == Some(a) {
        let i = s.index_of_last(':')->0;
        let host = s.take(i);
        let k = crate::text::read_number_was_written(s.skip(i + 1), a.port as nat);
        assert(s =~= host + seq![':'] + crate::text::padded_text(k, a.port as nat));
        match a.ip {
            IpAddr::V4(v) => {
                ipv4_is_read_as_written(host, v);
            },
            IpAddr::V6(w) => {
                let t = host.subrange(1, host.len() - 1);
                scope_is_read_as_written(t, w, a.scope_id);
                assert(host =~= seq!['['] + t + seq![']']);
            },
        }
    }
    if writes_socket(s, a) {
        let (host, k) = choose|host: Seq<char>, k: nat|
            s == #[trigger] (host + seq![':'] + crate::text::padded_text(k, a.port as nat)) && match a.ip {
                IpAddr::V4(v) => host == quad_of(v) && a.scope_id == 0,
                IpAddr::V6(w) => exists|t: Seq<char>|
                    host == #[trigger] (seq!['['] + t + seq![']']) && writes_scoped(t, w, a.scope_id),
            };
        decimal_text_lacks(a.port as nat, k, ':');
        crate::text::written_number_is_read(k, a.port as nat);
        last_separator(host, ':', crate::text::padded_text(k, a.port as nat));
        match a.ip {
            IpAddr::V4(v) => {
                ipv4_is_read_as_written(host, v);
            },
            IpAddr::V6(w) => {
                let t = choose|t: Seq<char>|
                    host == #[trigger] (seq!['['] + t + seq![']']) && writes_scoped(t, w, a.scope_id);
                scope_is_read_as_written(t, w, a.scope_id);
                assert(host.subrange(1, host.len() - 1) =~= t);
                if ipv4_text(host) is Some {
                    ipv4_is_read_as_written(host, ipv4_text(host)->0);
                    quad_begins_with_a_digit(ipv4_text(host)->0);
                }
            },
        }
    }
}

} // verus!
