//! Containers: what is kept of a running one, and which port an SRV query for
//! it gets.

use std::sync::Arc;
use vstd::hash_set::StringHashSet;
use vstd::prelude::*;
use vstd::string::*;

use crate::addr::IpAddr;
use crate::labels::Labels;
use crate::name::Proto;
use crate::text::{concat, parse_decimal, same, trim};

verus! {

/// Label prefix for explicit per-service SRV ports: `docker-dns.srv.http=8080`.
pub const LABEL_SRV_PREFIX: &'static str = "docker-dns.srv.";

/// Label for the default SRV port of a container: `docker-dns.port=8080`.
pub const LABEL_PORT: &'static str = "docker-dns.port";

/// One running container: all names it is reachable under, its addresses
/// per network, its exposed ports and labels.
pub struct ContainerEntry {
    pub names: StringHashSet,
    /// (network name, addresses on that network)
    pub networks: Vec<(String, Vec<IpAddr>)>,
    /// Exposed container ports (EXPOSE / --expose / -p), deduplicated.
    pub ports: Vec<(u16, Proto)>,
    pub labels: Arc<Labels>,
}

/// Result of a container lookup, detached from the index. The fallback-DNS
/// path yields IPs only.
pub struct Resolved {
    pub ips: Vec<IpAddr>,
    pub ports: Vec<(u16, Proto)>,
    pub labels: Arc<Labels>,
}

/// The text of an optional string slice.
pub open spec fn opt_text(s: Option<&str>) -> Option<Seq<char>> {
    match s {
        Some(s) => Some(s@),
        None => None,
    }
}

/// The port that a label gives: white space around it does not matter; a
/// label that is not a port number counts for nothing.
pub open spec fn label_port(labels: Map<Seq<char>, Seq<char>>, key: Seq<char>) -> Option<u16> {
    if labels.contains_key(key) {
        match crate::text::at_most(
            crate::text::decimal(crate::text::trimmed(labels[key])),
            u16::MAX as nat,
        ) {
            Some(p) => Some(p as u16),
            None => None,
        }
    } else {
        None
    }
}

/// Well-known service names -> port, used to pick among several exposed
/// ports when no label says otherwise (`_https._tcp.web` -> 443 if exposed).
pub open spec fn well_known(service: Seq<char>) -> Option<u16> {
    if service == "http"@ {
        Some(80)
    } else if service == "https"@ {
        Some(443)
    } else if service == "ldap"@ {
        Some(389)
    } else if service == "ldaps"@ {
        Some(636)
    } else if service == "smtp"@ {
        Some(25)
    } else if service == "submission"@ {
        Some(587)
    } else if service == "smtps"@ {
        Some(465)
    } else if service == "imap"@ {
        Some(143)
    } else if service == "imaps"@ {
        Some(993)
    } else if service == "pop3"@ {
        Some(110)
    } else if service == "pop3s"@ {
        Some(995)
    } else if service == "ssh"@ {
        Some(22)
    } else if service == "dns"@ {
        Some(53)
    } else if service == "postgresql"@ {
        Some(5432)
    } else if service == "mysql"@ {
        Some(3306)
    } else if service == "redis"@ {
        Some(6379)
    } else if service == "amqp"@ {
        Some(5672)
    } else if service == "mqtt"@ {
        Some(1883)
    } else {
        None
    }
}

/// `p` is exposed over `proto`.
pub open spec fn exposes(ports: Seq<(u16, Proto)>, proto: Proto, p: u16) -> bool {
    ports.contains((p, proto))
}

/// `p` is the lowest port exposed over `proto`.
pub open spec fn is_lowest(ports: Seq<(u16, Proto)>, proto: Proto, p: u16) -> bool {
    &&& exposes(ports, proto, p)
    &&& forall|q: u16| #[trigger] exposes(ports, proto, q) ==> p <= q
}

/// The lowest port exposed over `proto`.
pub open spec fn lowest(ports: Seq<(u16, Proto)>, proto: Proto) -> Option<u16> {
    if exists|p: u16| is_lowest(ports, proto, p) {
        Some(choose|p: u16| is_lowest(ports, proto, p))
    } else {
        None
    }
}

/// The port for an SRV query.
/// Precedence: label `docker-dns.srv.<service>`, then label
/// `docker-dns.port`, then the well-known port of `<service>` if exposed,
/// then the lowest exposed port of that protocol.
pub open spec fn srv_port_of(
    ports: Seq<(u16, Proto)>,
    labels: Map<Seq<char>, Seq<char>>,
    service: Option<Seq<char>>,
    proto: Proto,
) -> Option<u16> {
    let by_service = match service {
        Some(s) => label_port(labels, LABEL_SRV_PREFIX@ + s),
        None => None,
    };
    let by_label = label_port(labels, LABEL_PORT@);
    let usual = match service {
        Some(s) => well_known(s),
        None => None,
    };
    if by_service is Some {
        by_service
    } else if by_label is Some {
        by_label
    } else if usual is Some && exposes(ports, proto, usual->0) {
        usual
    } else {
        lowest(ports, proto)
    }
}

/// The well-known port of a service.
pub fn well_known_port(service: &str) -> (r: Option<u16>)
    ensures
        r == well_known(service@),
{
    if same(service, "http") {
        Some(80)
    } else if same(service, "https") {
        Some(443)
    } else if same(service, "ldap") {
        Some(389)
    } else if same(service, "ldaps") {
        Some(636)
    } else if same(service, "smtp") {
        Some(25)
    } else if same(service, "submission") {
        Some(587)
    } else if same(service, "smtps") {
        Some(465)
    } else if same(service, "imap") {
        Some(143)
    } else if same(service, "imaps") {
        Some(993)
    } else if same(service, "pop3") {
        Some(110)
    } else if same(service, "pop3s") {
        Some(995)
    } else if same(service, "ssh") {
        Some(22)
    } else if same(service, "dns") {
        Some(53)
    } else if same(service, "postgresql") {
        Some(5432)
    } else if same(service, "mysql") {
        Some(3306)
    } else if same(service, "redis") {
        Some(6379)
    } else if same(service, "amqp") {
        Some(5672)
    } else if same(service, "mqtt") {
        Some(1883)
    } else {
        None
    }
}

/// The port that a label gives.
fn port_label(labels: &Labels, key: &str) -> (r: Option<u16>)
    ensures
        r == label_port(labels@, key@),
{
    match labels.get(key) {
        Some(v) => match parse_decimal(trim(v.as_str()), 0xffff) {
            Some(p) => Some(p as u16),
            None => None,
        },
        None => None,
    }
}

/// Whether `p` is exposed over `proto`.
fn is_exposed(ports: &Vec<(u16, Proto)>, proto: Proto, p: u16) -> (r: bool)
    ensures
        r == exposes(ports@, proto, p),
{
    for i in 0..ports.len()
        invariant
            forall|j: int| 0 <= j < i ==> ports@[j] != (p, proto),
    {
        if ports[i].0 == p && ports[i].1 == proto {
            assert(ports@[i as int] == (p, proto));
            return true;
        }
    }
    false
}

/// The lowest port exposed over `proto`.
fn lowest_port(ports: &Vec<(u16, Proto)>, proto: Proto) -> (r: Option<u16>)
    ensures
        r == lowest(ports@, proto),
{
    let mut r: Option<u16> = None;
    for i in 0..ports.len()
        invariant
            r matches Some(p) ==> exposes(ports@, proto, p),
            forall|j: int| 0 <= j < i && (#[trigger] ports@[j]).1 == proto ==> r is Some && r->0
                <= ports@[j].0,
    {
        if ports[i].1 == proto {
            let p = ports[i].0;
            assert(ports@[i as int] == (p, proto));
            match r {
                Some(q) if q <= p => {},
                _ => {
                    r = Some(p);
                },
            }
        }
    }
    proof {
        assert forall|q: u16| #[trigger] exposes(ports@, proto, q) implies r is Some && r->0 <= q by {
            let j = choose|j: int| 0 <= j < ports@.len() && ports@[j] == (q, proto);
            assert(ports@[j].1 == proto);
        }
        if r is Some {
            assert(is_lowest(ports@, proto, r->0));
            let p = choose|p: u16| is_lowest(ports@, proto, p);
            assert(is_lowest(ports@, proto, p));
            assert(exposes(ports@, proto, p) && exposes(ports@, proto, r->0));
        } else {
            assert forall|p: u16| !is_lowest(ports@, proto, p) by {
                assert(!exposes(ports@, proto, p));
            }
        }
    }
    r
}

impl Resolved {
    /// Pick the port for an SRV query `_<service>._<proto>.<name>`.
    /// Precedence: label `docker-dns.srv.<service>`, then label
    /// `docker-dns.port`, then the well-known port of `<service>` if exposed,
    /// then the lowest exposed port of that protocol.
    pub fn srv_port(&self, service: Option<&str>, proto: Proto) -> (r: Option<u16>)
        ensures
            r == srv_port_of(self.ports@, self.labels@, opt_text(service), proto),
    {
        if let Some(s) = service {
            let key = concat(LABEL_SRV_PREFIX, s);
            let p = port_label(&self.labels, key.as_str());
            if p.is_some() {
                return p;
            }
        }
        let p = port_label(&self.labels, LABEL_PORT);
        if p.is_some() {
            return p;
        }
        if let Some(s) = service {
            if let Some(usual) = well_known_port(s) {
                if is_exposed(&self.ports, proto, usual) {
                    return Some(usual);
                }
            }
        }
        lowest_port(&self.ports, proto)
    }
}

/// The services that have a usual port, and that port.
pub open spec fn usual_ports() -> Seq<(Seq<char>, u16)> {
    seq![
        ("http"@, 80u16),
        ("https"@, 443u16),
        ("ldap"@, 389u16),
        ("ldaps"@, 636u16),
        ("smtp"@, 25u16),
        ("submission"@, 587u16),
        ("smtps"@, 465u16),
        ("imap"@, 143u16),
        ("imaps"@, 993u16),
        ("pop3"@, 110u16),
        ("pop3s"@, 995u16),
        ("ssh"@, 22u16),
        ("dns"@, 53u16),
        ("postgresql"@, 5432u16),
        ("mysql"@, 3306u16),
        ("redis"@, 6379u16),
        ("amqp"@, 5672u16),
        ("mqtt"@, 1883u16),
    ]
}

/// A service has the port that the table gives, and none where the table does
/// not have the service.
pub proof fn well_known_ports_are_usual(service: Seq<char>, p: u16)
    ensures
        well_known(service) == Some(p) <==> usual_ports().contains((service, p)),
{
    let t = usual_ports();
    reveal_strlit("http");
    reveal_strlit("https");
    reveal_strlit("ldap");
    reveal_strlit("ldaps");
    reveal_strlit("smtp");
    reveal_strlit("submission");
    reveal_strlit("smtps");
    reveal_strlit("imap");
    reveal_strlit("imaps");
    reveal_strlit("pop3");
    reveal_strlit("pop3s");
    reveal_strlit("ssh");
    reveal_strlit("dns");
    reveal_strlit("postgresql");
    reveal_strlit("mysql");
    reveal_strlit("redis");
    reveal_strlit("amqp");
    reveal_strlit("mqtt");
    assert("http"@.len() == 4);
    assert("https"@.len() == 5);
    assert("ldap"@.len() == 4);
    assert("ldaps"@.len() == 5);
    assert("smtp"@.len() == 4);
    assert("submission"@.len() == 10);
    assert("smtps"@.len() == 5);
    assert("imap"@.len() == 4);
    assert("imaps"@.len() == 5);
    assert("pop3"@.len() == 4);
    assert("pop3s"@.len() == 5);
    assert("ssh"@.len() == 3);
    assert("dns"@.len() == 3);
    assert("postgresql"@.len() == 10);
    assert("mysql"@.len() == 5);
    assert("redis"@.len() == 5);
    assert("amqp"@.len() == 4);
    assert("mqtt"@.len() == 4);
    assert("http"@[0] != "ldap"@[0]);
    assert("http"@[0] != "smtp"@[0]);
    assert("http"@[0] != "imap"@[0]);
    assert("http"@[0] != "pop3"@[0]);
    assert("http"@[0] != "amqp"@[0]);
    assert("http"@[0] != "mqtt"@[0]);
    assert("https"@[0] != "ldaps"@[0]);
    assert("https"@[0] != "smtps"@[0]);
    assert("https"@[0] != "imaps"@[0]);
    assert("https"@[0] != "pop3s"@[0]);
    assert("https"@[0] != "mysql"@[0]);
    assert("https"@[0] != "redis"@[0]);
    assert("ldap"@[0] != "smtp"@[0]);
    assert("ldap"@[0] != "imap"@[0]);
    assert("ldap"@[0] != "pop3"@[0]);
    assert("ldap"@[0] != "amqp"@[0]);
    assert("ldap"@[0] != "mqtt"@[0]);
    assert("ldaps"@[0] != "smtps"@[0]);
    assert("ldaps"@[0] != "imaps"@[0]);
    assert("ldaps"@[0] != "pop3s"@[0]);
    assert("ldaps"@[0] != "mysql"@[0]);
    assert("ldaps"@[0] != "redis"@[0]);
    assert("smtp"@[0] != "imap"@[0]);
    assert("smtp"@[0] != "pop3"@[0]);
    assert("smtp"@[0] != "amqp"@[0]);
    assert("smtp"@[0] != "mqtt"@[0]);
    assert("submission"@[0] != "postgresql"@[0]);
    assert("smtps"@[0] != "imaps"@[0]);
    assert("smtps"@[0] != "pop3s"@[0]);
    assert("smtps"@[0] != "mysql"@[0]);
    assert("smtps"@[0] != "redis"@[0]);
    assert("imap"@[0] != "pop3"@[0]);
    assert("imap"@[0] != "amqp"@[0]);
    assert("imap"@[0] != "mqtt"@[0]);
    assert("imaps"@[0] != "pop3s"@[0]);
    assert("imaps"@[0] != "mysql"@[0]);
    assert("imaps"@[0] != "redis"@[0]);
    assert("pop3"@[0] != "amqp"@[0]);
    assert("pop3"@[0] != "mqtt"@[0]);
    assert("pop3s"@[0] != "mysql"@[0]);
    assert("pop3s"@[0] != "redis"@[0]);
    assert("ssh"@[0] != "dns"@[0]);
    assert("mysql"@[0] != "redis"@[0]);
    assert("amqp"@[0] != "mqtt"@[0]);
    assert(t[0] == ("http"@, 80u16) && well_known("http"@) == Some(80u16));
    assert(t[1] == ("https"@, 443u16) && well_known("https"@) == Some(443u16));
    assert(t[2] == ("ldap"@, 389u16) && well_known("ldap"@) == Some(389u16));
    assert(t[3] == ("ldaps"@, 636u16) && well_known("ldaps"@) == Some(636u16));
    assert(t[4] == ("smtp"@, 25u16) && well_known("smtp"@) == Some(25u16));
    assert(t[5] == ("submission"@, 587u16) && well_known("submission"@) == Some(587u16));
    assert(t[6] == ("smtps"@, 465u16) && well_known("smtps"@) == Some(465u16));
    assert(t[7] == ("imap"@, 143u16) && well_known("imap"@) == Some(143u16));
    assert(t[8] == ("imaps"@, 993u16) && well_known("imaps"@) == Some(993u16));
    assert(t[9] == ("pop3"@, 110u16) && well_known("pop3"@) == Some(110u16));
    assert(t[10] == ("pop3s"@, 995u16) && well_known("pop3s"@) == Some(995u16));
    assert(t[11] == ("ssh"@, 22u16) && well_known("ssh"@) == Some(22u16));
    assert(t[12] == ("dns"@, 53u16) && well_known("dns"@) == Some(53u16));
    assert(t[13] == ("postgresql"@, 5432u16) && well_known("postgresql"@) == Some(5432u16));
    assert(t[14] == ("mysql"@, 3306u16) && well_known("mysql"@) == Some(3306u16));
    assert(t[15] == ("redis"@, 6379u16) && well_known("redis"@) == Some(6379u16));
    assert(t[16] == ("amqp"@, 5672u16) && well_known("amqp"@) == Some(5672u16));
    assert(t[17] == ("mqtt"@, 1883u16) && well_known("mqtt"@) == Some(1883u16));
    if t.contains((service, p)) {
        let i = choose|i: int| 0 <= i < t.len() && t[i] == (service, p);
        assert(t[i] == (service, p));
    }
}

/// The label `key` has the port `p` as its value, with white space around it or
/// not.
pub open spec fn gives_port(labels: Map<Seq<char>, Seq<char>>, key: Seq<char>, p: u16) -> bool {
    labels.contains_key(key) && exists|a: Seq<char>, m: Seq<char>, b: Seq<char>|
        labels[key] == #[trigger] (a + m + b) && crate::text::writes(m, p as nat) && (forall|i: int|
            0 <= i < a.len() ==> crate::text::is_space(#[trigger] a[i])) && (forall|i: int|
            0 <= i < b.len() ==> crate::text::is_space(#[trigger] b[i]))
}

/// A text that writes a number has no white space at its ends.
proof fn number_has_no_space(m: Seq<char>, n: nat)
    requires
        crate::text::writes(m, n),
    ensures
        m.len() > 0,
        !crate::text::is_space(m[0]),
        !crate::text::is_space(m.last()),
{
    let k = choose|k: nat| #[trigger]
        crate::text::padded_text(k, n) == m || seq!['+'] + crate::text::padded_text(k, n) == m;
    let d = crate::text::decimal_text(n);
    let t = crate::text::padded_text(k, n);
    crate::text::decimal_text_shape(n);
    assert(t.last() == d[d.len() - 1]);
    assert(m.last() == t.last());
    if k == 0 {
        assert(t[0] == d[0]);
    }
}

/// A label gives the port that is its value, and no other.
pub proof fn label_gives_what_it_holds(
    labels: Map<Seq<char>, Seq<char>>,
    key: Seq<char>,
    p: u16,
)
    ensures
        label_port(labels, key) == Some(p) <==> gives_port(labels, key, p),
{
    let v = labels[key];
    if label_port(labels, key) == Some(p) {
        let drop = |x: char| crate::text::is_space(x);
        let front = crate::text::trim_front(v, drop);
        let a = crate::text::front_comes_apart(v, drop);
        let m = crate::text::trim_back(front, drop);
        let b = crate::text::back_comes_apart(front, drop);
        crate::text::numbers_are_read_as_written(m, p as nat);
        assert(v =~= a + m + b);
        assert forall|i: int| 0 <= i < a.len() implies crate::text::is_space(#[trigger] a[i]) by {
            assert(drop(a[i]));
        }
        assert forall|i: int| 0 <= i < b.len() implies crate::text::is_space(#[trigger] b[i]) by {
            assert(drop(b[i]));
        }
    }
    if gives_port(labels, key, p) {
        let (a, m, b) = choose|a: Seq<char>, m: Seq<char>, b: Seq<char>|
            v == #[trigger] (a + m + b) && crate::text::writes(m, p as nat) && (forall|i: int|
                0 <= i < a.len() ==> crate::text::is_space(#[trigger] a[i])) && (forall|i: int|
                0 <= i < b.len() ==> crate::text::is_space(#[trigger] b[i]));
        number_has_no_space(m, p as nat);
        crate::text::space_is_trimmed(a, m, b);
        crate::text::numbers_are_read_as_written(m, p as nat);
    }
}

/// Whether no label named `key` gives a port.
pub open spec fn gives_none(labels: Map<Seq<char>, Seq<char>>, key: Seq<char>) -> bool {
    forall|p: u16| !#[trigger] gives_port(labels, key, p)
}

/// No port is read from a label that gives none.
proof fn label_without_port(labels: Map<Seq<char>, Seq<char>>, key: Seq<char>)
    requires
        gives_none(labels, key),
    ensures
        label_port(labels, key) is None,
{
    if let Some(p) = label_port(labels, key) {
        label_gives_what_it_holds(labels, key, p);
    }
}

/// The label of the service decides on the port, whatever else there is.
pub proof fn service_label_comes_first(
    ports: Seq<(u16, Proto)>,
    labels: Map<Seq<char>, Seq<char>>,
    service: Seq<char>,
    proto: Proto,
    p: u16,
)
    requires
        gives_port(labels, "docker-dns.srv."@ + service, p),
    ensures
        srv_port_of(ports, labels, Some(service), proto) == Some(p),
{
    label_gives_what_it_holds(labels, "docker-dns.srv."@ + service, p);
}

/// Where no label of the service gives a port, the label for all services
/// decides, whatever the service is called and whatever ports are exposed.
pub proof fn port_label_comes_second(
    ports: Seq<(u16, Proto)>,
    labels: Map<Seq<char>, Seq<char>>,
    service: Option<Seq<char>>,
    proto: Proto,
    p: u16,
)
    requires
        service is Some ==> gives_none(labels, "docker-dns.srv."@ + service->0),
        gives_port(labels, "docker-dns.port"@, p),
    ensures
        srv_port_of(ports, labels, service, proto) == Some(p),
{
    if service is Some {
        label_without_port(labels, "docker-dns.srv."@ + service->0);
    }
    label_gives_what_it_holds(labels, "docker-dns.port"@, p);
}

/// Where no label gives a port, the usual port of the service decides if it is
/// exposed over the protocol.
pub proof fn usual_port_comes_third(
    ports: Seq<(u16, Proto)>,
    labels: Map<Seq<char>, Seq<char>>,
    service: Seq<char>,
    proto: Proto,
    p: u16,
)
    requires
        gives_none(labels, "docker-dns.srv."@ + service),
        gives_none(labels, "docker-dns.port"@),
        usual_ports().contains((service, p)),
        ports.contains((p, proto)),
    ensures
        srv_port_of(ports, labels, Some(service), proto) == Some(p),
{
    label_without_port(labels, "docker-dns.srv."@ + service);
    label_without_port(labels, "docker-dns.port"@);
    well_known_ports_are_usual(service, p);
}

/// Where neither a label nor an exposed usual port decides, the lowest port
/// that is exposed over the protocol does; there is none where none is exposed.
pub proof fn lowest_port_comes_last(
    ports: Seq<(u16, Proto)>,
    labels: Map<Seq<char>, Seq<char>>,
    service: Option<Seq<char>>,
    proto: Proto,
)
    requires
        service is Some ==> gives_none(labels, "docker-dns.srv."@ + service->0),
        gives_none(labels, "docker-dns.port"@),
        service is Some ==> forall|p: u16|
            usual_ports().contains((service->0, p)) ==> !#[trigger] ports.contains((p, proto)),
    ensures
        match srv_port_of(ports, labels, service, proto) {
            Some(p) => ports.contains((p, proto)) && forall|q: u16| #[trigger]
                ports.contains((q, proto)) ==> p <= q,
            None => forall|q: u16| !#[trigger] ports.contains((q, proto)),
        },
{
    if service is Some {
        label_without_port(labels, "docker-dns.srv."@ + service->0);
        if let Some(p) = well_known(service->0) {
            well_known_ports_are_usual(service->0, p);
        }
    }
    label_without_port(labels, "docker-dns.port"@);
    assert(srv_port_of(ports, labels, service, proto) == lowest(ports, proto));
    if lowest(ports, proto) is Some {
        let p = lowest(ports, proto)->0;
        assert(is_lowest(ports, proto, p));
        assert forall|q: u16| #[trigger] ports.contains((q, proto)) implies p <= q by {
            assert(exposes(ports, proto, q));
        }
    } else {
        assert forall|q: u16| !#[trigger] ports.contains((q, proto)) by {
            if exposes(ports, proto, q) {
                crate::laws::a_lowest_port_exists(ports, proto, q);
            }
        }
    }
}

/// An optional text is there if and only if the string is.
pub proof fn optional_text_is_the_text(s: Option<&str>)
    ensures
        opt_text(s) is Some <==> s is Some,
        s is Some ==> opt_text(s)->0 == s->0@,
{
}

} // verus!
