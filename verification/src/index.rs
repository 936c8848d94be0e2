//! The index of running containers: built from the container list, searched
//! by name.

use std::sync::Arc;
use vstd::hash_set::StringHashSet;
use vstd::prelude::*;
use vstd::string::*;

use crate::addr::{parse_ip, IpAddr};
use crate::container::{ContainerEntry, Resolved};
use crate::labels::{share, Labels};
use crate::name::Proto;
use crate::order::{copied, sort_dedup, Ranked};
use crate::text::{same, to_ascii_lowercase, trim_start_matches};

verus! {

/// Kind of an exposed port, as the container list gives it.
#[derive(Clone, Copy, Debug, PartialEq, Eq, Structural)]
pub enum PortType {
    Empty,
    Tcp,
    Udp,
    Sctp,
}

/// An exposed port of a listed container.
#[derive(Clone, Copy, Debug, PartialEq, Eq, Structural)]
pub struct Port {
    pub private_port: u16,
    pub typ: Option<PortType>,
}

/// A network that a listed container is attached to.
pub struct Network {
    pub name: String,
    pub aliases: Option<Vec<String>>,
    pub ip_address: Option<String>,
    pub global_ipv6_address: Option<String>,
}

/// A container as the container list gives it.
pub struct ContainerSummary {
    pub names: Option<Vec<String>>,
    pub labels: Option<Labels>,
    pub ports: Option<Vec<Port>>,
    pub networks: Option<Vec<Network>>,
}

/// All running containers, in the order of the container list.
pub struct ContainerIndex {
    pub entries: Vec<ContainerEntry>,
}

/// Label in which docker compose keeps the service name.
pub const LABEL_COMPOSE_SERVICE: &'static str = "com.docker.compose.service";

/// The items of an optional list; none where there is no list.
pub open spec fn items<T>(list: Option<Vec<T>>) -> Seq<T> {
    match list {
        Some(v) => v@,
        None => Seq::empty(),
    }
}

/// The first item that satisfies `p`.
pub open spec fn first_where<T>(s: Seq<T>, p: spec_fn(T) -> bool) -> Option<T>
    decreases s.len(),
{
    if s.len() == 0 {
        None
    } else if p(s[0]) {
        Some(s[0])
    } else {
        first_where(s.drop_first(), p)
    }
}

/// The labels of a listed container.
pub open spec fn labels_of(c: ContainerSummary) -> Map<Seq<char>, Seq<char>> {
    match c.labels {
        Some(l) => l@,
        None => Map::empty(),
    }
}

/// `t` is the name that the container was given: slashes in front are dropped,
/// case does not matter.
pub open spec fn is_own_name(c: ContainerSummary, t: Seq<char>) -> bool {
    exists|i: int|
        0 <= i < items(c.names).len() && t == crate::text::lower(
            crate::text::trim_front((#[trigger] items(c.names)[i])@, |x: char| x == '/'),
        )
}

/// `t` is the container's docker compose service name, in lower case.
pub open spec fn is_service_name(c: ContainerSummary, t: Seq<char>) -> bool {
    &&& labels_of(c).contains_key(LABEL_COMPOSE_SERVICE@)
    &&& t == crate::text::lower(labels_of(c)[LABEL_COMPOSE_SERVICE@])
}

/// `t` is an alias on the network `n`, in lower case.
pub open spec fn is_alias_on(n: Network, t: Seq<char>) -> bool {
    exists|j: int|
        0 <= j < items(n.aliases).len() && t == crate::text::lower((#[trigger] items(n.aliases)[j])@)
}

/// `t` is an alias on one of the container's networks, in lower case.
pub open spec fn is_alias(c: ContainerSummary, t: Seq<char>) -> bool {
    exists|i: int|
        0 <= i < items(c.networks).len() && is_alias_on(#[trigger] items(c.networks)[i], t)
}

/// `t` is a name that the container is reachable under.
pub open spec fn is_name_of(c: ContainerSummary, t: Seq<char>) -> bool {
    is_own_name(c, t) || is_service_name(c, t) || is_alias(c, t)
}

/// The port and protocol of an exposed port, TCP and UDP only.
pub open spec fn port_of(p: Port) -> Option<(u16, Proto)> {
    match p.typ {
        Some(PortType::Tcp) => Some((p.private_port, Proto::Tcp)),
        Some(PortType::Udp) => Some((p.private_port, Proto::Udp)),
        _ => None,
    }
}

/// The address that an optional text writes, if it writes one.
pub open spec fn opt_ip(s: Option<String>) -> Seq<IpAddr> {
    match s {
        Some(t) => match crate::addr::ip_text(t@) {
            Some(ip) => seq![ip],
            None => Seq::empty(),
        },
        None => Seq::empty(),
    }
}

/// The addresses of a container on one network, IPv4 first.
pub open spec fn network_ips(n: Network) -> Seq<IpAddr> {
    opt_ip(n.ip_address) + opt_ip(n.global_ipv6_address)
}

/// `e` is the network `n` in the index.
pub open spec fn describes_network(e: (String, Vec<IpAddr>), n: Network) -> bool {
    e.0@ == crate::text::lower(n.name@) && e.1@ == network_ips(n)
}

/// `e` is the listed container `c` in the index.
pub open spec fn describes(e: ContainerEntry, c: ContainerSummary) -> bool {
    &&& forall|t: Seq<char>| #[trigger] e.names@.contains(t) <==> is_name_of(c, t)
    &&& e.networks@.len() == items(c.networks).len()
    &&& forall|i: int|
        0 <= i < e.networks@.len() ==> describes_network(
            #[trigger] e.networks@[i],
            items(c.networks)[i],
        )
    &&& crate::order::sorted_set_of(e.ports@, items(c.ports).filter_map(|p: Port| port_of(p)))
    &&& e.labels@ == labels_of(c)
}

/// Adds the address that an optional text writes.
fn push_ip(ips: &mut Vec<IpAddr>, s: &Option<String>)
    ensures
        final(ips)@ == old(ips)@ + opt_ip(*s),
{
    if let Some(t) = s {
        if let Some(ip) = parse_ip(t.as_str()) {
            ips.push(ip);
        }
    }
}

/// The exposed TCP and UDP ports, in order, each once.
fn exposed_ports(list: &Option<Vec<Port>>) -> (r: Vec<(u16, Proto)>)
    ensures
        crate::order::sorted_set_of(r@, items(*list).filter_map(|p: Port| port_of(p))),
{
    let ghost f = |p: Port| port_of(p);
    let mut ports: Vec<(u16, Proto)> = Vec::new();
    if let Some(v) = list {
        for i in 0..v.len()
            invariant
                f == (|p: Port| port_of(p)),
                ports@ == v@.take(i as int).filter_map(f),
        {
            proof {
                v@.lemma_filter_map_take_succ(f, i as int);
            }
            match v[i].typ {
                Some(PortType::Tcp) => {
                    ports.push((v[i].private_port, Proto::Tcp));
                },
                Some(PortType::Udp) => {
                    ports.push((v[i].private_port, Proto::Udp));
                },
                _ => {},
            }
        }
        assert(v@.take(v@.len() as int) == v@);
    }
    sort_dedup(&ports)
}

/// Adds the aliases on the network `n`.
fn add_aliases(names: &mut StringHashSet, n: &Network)
    ensures
        forall|t: Seq<char>| #[trigger]
            final(names)@.contains(t) <==> old(names)@.contains(t) || is_alias_on(*n, t),
{
    if let Some(aliases) = &n.aliases {
        let ghost start = names@;
        for j in 0..aliases.len()
            invariant
                n.aliases == Some(*aliases),
                forall|t: Seq<char>| #[trigger]
                    names@.contains(t) <==> start.contains(t) || exists|k: int|
                        0 <= k < j && t == crate::text::lower((#[trigger] aliases@[k])@),
        {
            let ghost before = names@;
            names.insert(to_ascii_lowercase(aliases[j].as_str()));
            assert forall|t: Seq<char>| #[trigger] names@.contains(t) <==> start.contains(t)
                || exists|k: int|
                0 <= k < j + 1 && t == crate::text::lower((#[trigger] aliases@[k])@) by {
                assert(before.contains(t) <==> start.contains(t) || exists|k: int|
                    0 <= k < j && t == crate::text::lower((#[trigger] aliases@[k])@));
                if t == crate::text::lower(aliases@[j as int]@) {
                    assert(0 <= j < j + 1);
                }
            }
        }
        assert(items(n.aliases) == aliases@);
    } else {
        assert(items(n.aliases).len() == 0);
    }
}

/// Adds the names that the container was given and its compose service name.
fn add_own_names(names: &mut StringHashSet, c: &ContainerSummary)
    ensures
        forall|t: Seq<char>| #[trigger]
            final(names)@.contains(t) <==> old(names)@.contains(t) || is_own_name(*c, t)
                || is_service_name(*c, t),
{
    let ghost start = names@;
    if let Some(list) = &c.names {
        for i in 0..list.len()
            invariant
                c.names == Some(*list),
                forall|t: Seq<char>| #[trigger]
                    names@.contains(t) <==> start.contains(t) || exists|k: int|
                        0 <= k < i && t == crate::text::lower(
                            crate::text::trim_front((#[trigger] list@[k])@, |x: char| x == '/'),
                        ),
        {
            let ghost before = names@;
            names.insert(to_ascii_lowercase(trim_start_matches(list[i].as_str(), '/')));
            assert forall|t: Seq<char>| #[trigger] names@.contains(t) <==> start.contains(t)
                || exists|k: int|
                0 <= k < i + 1 && t == crate::text::lower(
                    crate::text::trim_front((#[trigger] list@[k])@, |x: char| x == '/'),
                ) by {
                assert(before.contains(t) <==> start.contains(t) || exists|k: int|
                    0 <= k < i && t == crate::text::lower(
                        crate::text::trim_front((#[trigger] list@[k])@, |x: char| x == '/'),
                    ));
                if t == crate::text::lower(
                    crate::text::trim_front(list@[i as int]@, |x: char| x == '/'),
                ) {
                    assert(0 <= i < i + 1);
                }
            }
        }
        assert(items(c.names) == list@);
    } else {
        assert(items(c.names).len() == 0);
    }
    assert(forall|t: Seq<char>| #[trigger]
        names@.contains(t) <==> start.contains(t) || is_own_name(*c, t));
    if let Some(labels) = &c.labels {
        if let Some(service) = labels.get(LABEL_COMPOSE_SERVICE) {
            names.insert(to_ascii_lowercase(service.as_str()));
        }
    }
}

/// The index entry of a listed container.
pub fn entry_of(c: ContainerSummary) -> (r: ContainerEntry)
    ensures
        describes(r, c),
{
    let mut names = StringHashSet::new();
    add_own_names(&mut names, &c);
    let ports = exposed_ports(&c.ports);
    let mut networks: Vec<(String, Vec<IpAddr>)> = Vec::new();
    if let Some(nets) = &c.networks {
        let ghost own = names@;
        for i in 0..nets.len()
            invariant
                c.networks == Some(*nets),
                networks@.len() == i,
                forall|k: int| 0 <= k < i ==> describes_network(#[trigger] networks@[k], nets@[k]),
                forall|t: Seq<char>| #[trigger]
                    names@.contains(t) <==> own.contains(t) || exists|k: int|
                        0 <= k < i && is_alias_on(#[trigger] nets@[k], t),
        {
            let ghost before = names@;
            add_aliases(&mut names, &nets[i]);
            assert forall|t: Seq<char>| #[trigger] names@.contains(t) <==> own.contains(t)
                || exists|k: int| 0 <= k < i + 1 && is_alias_on(#[trigger] nets@[k], t) by {
                assert(before.contains(t) <==> own.contains(t) || exists|k: int|
                    0 <= k < i && is_alias_on(#[trigger] nets@[k], t));
                if is_alias_on(nets@[i as int], t) {
                    assert(0 <= i < i + 1);
                }
            }
            let mut ips: Vec<IpAddr> = Vec::new();
            push_ip(&mut ips, &nets[i].ip_address);
            push_ip(&mut ips, &nets[i].global_ipv6_address);
            assert(ips@ =~= network_ips(nets@[i as int]));
            networks.push((to_ascii_lowercase(nets[i].name.as_str()), ips));
        }
        assert(items(c.networks) == nets@);
    } else {
        assert(items(c.networks).len() == 0);
    }
    let labels = match c.labels {
        Some(l) => l,
        None => Labels::new(),
    };
    ContainerEntry { names, networks, ports, labels: Arc::new(labels) }
}

impl ContainerIndex {
    /// Indexes a container list.
    pub fn build(containers: Vec<ContainerSummary>) -> (r: ContainerIndex)
        ensures
            r.entries@.len() == containers@.len(),
            forall|i: int|
                0 <= i < r.entries@.len() ==> describes(#[trigger] r.entries@[i], containers@[i]),
    {
        let mut entries: Vec<ContainerEntry> = Vec::new();
        for c in it: containers
            invariant
                it.seq() == containers@,
                entries@.len() == it.index(),
                forall|i: int|
                    0 <= i < entries@.len() ==> describes(#[trigger] entries@[i], containers@[i]),
        {
            entries.push(entry_of(c));
        }
        ContainerIndex { entries }
    }
}

/// The entry has the name `name`.
pub open spec fn answers_to(name: Seq<char>) -> spec_fn(ContainerEntry) -> bool {
    |e: ContainerEntry| e.names@.contains(name)
}

/// The network is called `name` and has an address.
pub open spec fn is_usable(name: Seq<char>) -> spec_fn((String, Vec<IpAddr>)) -> bool {
    |n: (String, Vec<IpAddr>)| n.0@ == name && n.1@.len() > 0
}

/// All addresses of a container, network by network.
pub open spec fn all_ips(e: ContainerEntry) -> Seq<IpAddr> {
    e.networks@.flat_map(|n: (String, Vec<IpAddr>)| n.1@)
}

/// The container is attached to the preferred network.
pub open spec fn is_attached(e: ContainerEntry, prefer: Option<Seq<char>>) -> bool {
    prefer is Some && exists|i: int|
        0 <= i < e.networks@.len() && (#[trigger] e.networks@[i]).0@ == prefer->0
}

/// The network of the container that is preferred: the first one of that name
/// on which it has an address.
pub open spec fn preferred_network(e: ContainerEntry, prefer: Option<Seq<char>>) -> Option<
    (String, Vec<IpAddr>),
> {
    match prefer {
        Some(p) => first_where(e.networks@, is_usable(p)),
        None => None,
    }
}

/// `r` is what a lookup gives for the entry `e`: if the container is attached
/// to the preferred network, only addresses from that network, and none where
/// it has none there; else all of its addresses in order and each once. Ports
/// and labels are as they are.
pub open spec fn resolves_to(e: ContainerEntry, prefer: Option<Seq<char>>, r: Resolved) -> bool {
    &&& match preferred_network(e, prefer) {
        Some(n) => r.ips@ == n.1@,
        None => if is_attached(e, prefer) {
            r.ips@.len() == 0
        } else {
            crate::order::sorted_set_of(r.ips@, all_ips(e))
        },
    }
    &&& r.ports@ == e.ports@
    &&& r.labels == e.labels
}

/// `r` is the answer of the index to `name`: the first entry of that name
/// decides, and no entry of that name means no answer.
pub open spec fn is_lookup(
    index: ContainerIndex,
    name: Seq<char>,
    prefer: Option<Seq<char>>,
    r: Option<Resolved>,
) -> bool {
    match first_where(index.entries@, answers_to(name)) {
        Some(e) => r is Some && resolves_to(e, prefer, r->0),
        None => r is None,
    }
}

/// The first network called `name` on which there is an address.
fn find_network<'a>(networks: &'a Vec<(String, Vec<IpAddr>)>, name: &str) -> (r: Option<
    &'a (String, Vec<IpAddr>),
>)
    ensures
        match r {
            Some(n) => first_where(networks@, is_usable(name@)) == Some(*n),
            None => first_where(networks@, is_usable(name@)) is None,
        },
{
    let ghost p = is_usable(name@);
    assert(networks@.skip(0) == networks@);
    for i in 0..networks.len()
        invariant
            p == is_usable(name@),
            first_where(networks@, p) == first_where(networks@.skip(i as int), p),
    {
        let n = &networks[i];
        assert(networks@.skip(i as int)[0] == *n);
        if same(n.0.as_str(), name) && !n.1.is_empty() {
            return Some(n);
        }
        assert(networks@.skip(i as int).drop_first() == networks@.skip(i + 1));
    }
    None
}

/// Whether there is a network called `name`.
fn has_network(networks: &Vec<(String, Vec<IpAddr>)>, name: &str) -> (r: bool)
    ensures
        r == exists|i: int| 0 <= i < networks@.len() && (#[trigger] networks@[i]).0@ == name@,
{
    for i in 0..networks.len()
        invariant
            forall|k: int| 0 <= k < i ==> (#[trigger] networks@[k]).0@ != name@,
    {
        if same(networks[i].0.as_str(), name) {
            assert(networks@[i as int].0@ == name@);
            return true;
        }
    }
    false
}

/// All addresses of a container, in order and each once.
fn merged_ips(e: &ContainerEntry) -> (r: Vec<IpAddr>)
    ensures
        crate::order::sorted_set_of(r@, all_ips(*e)),
{
    let ghost f = |n: (String, Vec<IpAddr>)| n.1@;
    let mut all: Vec<IpAddr> = Vec::new();
    proof {
        let none = e.networks@.take(0);
        assert(none.map_values(f) =~= Seq::empty());
        assert(none.flat_map(f) =~= Seq::empty());
    }
    for i in 0..e.networks.len()
        invariant
            f == (|n: (String, Vec<IpAddr>)| n.1@),
            all@ == e.networks@.take(i as int).flat_map(f),
    {
        proof {
            e.networks@.lemma_flat_map_take_append(f, i as int);
        }
        let mut more = copied(&e.networks[i].1);
        all.append(&mut more);
    }
    assert(e.networks@.take(e.networks@.len() as int) == e.networks@);
    sort_dedup(&all)
}

impl ContainerIndex {
    /// Finds a container by name.
    pub fn lookup(&self, name: &str, prefer_network: Option<&str>) -> (r: Option<Resolved>)
        ensures
            is_lookup(*self, name@, crate::container::opt_text(prefer_network), r),
    {
        let ghost p = answers_to(name@);
        assert(self.entries@.skip(0) == self.entries@);
        for i in 0..self.entries.len()
            invariant
                p == answers_to(name@),
                first_where(self.entries@, p) == first_where(self.entries@.skip(i as int), p),
        {
            let e = &self.entries[i];
            assert(self.entries@.skip(i as int)[0] == *e);
            if e.names.contains(name) {
                let ips = match prefer_network {
                    Some(net) => match find_network(&e.networks, net) {
                        Some(n) => copied(&n.1),
                        None => if has_network(&e.networks, net) {
                            Vec::new()
                        } else {
                            merged_ips(e)
                        },
                    },
                    None => merged_ips(e),
                };
                return Some(
                    Resolved { ips, ports: copied(&e.ports), labels: share(&e.labels) },
                );
            }
            assert(self.entries@.skip(i as int).drop_first() == self.entries@.skip(i + 1));
        }
        None
    }
}

/// What a first match is: an item of the list that matches.
pub proof fn first_where_matches<T>(s: Seq<T>, p: spec_fn(T) -> bool)
    ensures
        match first_where(s, p) {
            Some(x) => s.contains(x) && p(x),
            None => forall|i: int| 0 <= i < s.len() ==> !p(#[trigger] s[i]),
        },
    decreases s.len(),
{
    if s.len() > 0 && !p(s[0]) {
        let rest = s.drop_first();
        first_where_matches(rest, p);
        match first_where(rest, p) {
            Some(x) => {
                let k = choose|k: int| 0 <= k < rest.len() && rest[k] == x;
                assert(s[k + 1] == x);
            },
            None => {
                assert forall|i: int| 0 <= i < s.len() implies !p(#[trigger] s[i]) by {
                    if i > 0 {
                        assert(s[i] == rest[i - 1]);
                    }
                }
            },
        }
    } else if s.len() > 0 {
        assert(s[0] == first_where(s, p)->0);
    }
}

/// An index answers to exactly the names of the containers it was built from:
/// the names they were given, their compose service names and their network
/// aliases, all in lower case.
pub proof fn index_answers_to_container_names(
    containers: Seq<ContainerSummary>,
    index: ContainerIndex,
    name: Seq<char>,
    prefer: Option<Seq<char>>,
    r: Option<Resolved>,
)
    requires
        index.entries@.len() == containers.len(),
        forall|i: int|
            0 <= i < index.entries@.len() ==> describes(#[trigger] index.entries@[i], containers[i]),
        is_lookup(index, name, prefer, r),
    ensures
        r is Some <==> exists|i: int|
            0 <= i < containers.len() && is_name_of(#[trigger] containers[i], name),
{
    let entries = index.entries@;
    first_where_matches(entries, answers_to(name));
    match first_where(entries, answers_to(name)) {
        Some(e) => {
            let i = choose|i: int| 0 <= i < entries.len() && entries[i] == e;
            assert(describes(entries[i], containers[i]));
            assert(e.names@.contains(name));
            assert(is_name_of(containers[i], name));
        },
        None => {
            assert forall|i: int| 0 <= i < containers.len() implies !is_name_of(
                #[trigger] containers[i],
                name,
            ) by {
                assert(describes(entries[i], containers[i]));
                assert(!answers_to(name)(entries[i]));
                assert(!entries[i].names@.contains(name));
            }
        },
    }
}

/// Every name in the index is in lower case.
pub proof fn names_are_lower_case(c: ContainerSummary, e: ContainerEntry, name: Seq<char>)
    requires
        describes(e, c),
        e.names@.contains(name),
    ensures
        crate::text::lower(name) == name,
{
    assert(is_name_of(c, name));
    if is_own_name(c, name) {
        let i = choose|i: int|
            0 <= i < items(c.names).len() && name == crate::text::lower(
                crate::text::trim_front((#[trigger] items(c.names)[i])@, |x: char| x == '/'),
            );
        crate::text::lower_is_idempotent(
            crate::text::trim_front(items(c.names)[i]@, |x: char| x == '/'),
        );
    } else if is_service_name(c, name) {
        crate::text::lower_is_idempotent(labels_of(c)[LABEL_COMPOSE_SERVICE@]);
    } else {
        let i = choose|i: int|
            0 <= i < items(c.networks).len() && is_alias_on(#[trigger] items(c.networks)[i], name);
        let n = items(c.networks)[i];
        let j = choose|j: int|
            0 <= j < items(n.aliases).len() && name == crate::text::lower(
                (#[trigger] items(n.aliases)[j])@,
            );
        crate::text::lower_is_idempotent(items(n.aliases)[j]@);
    }
}

/// If the container is attached to the preferred network, only addresses from
/// that network are returned, and at least one if it has any there.
pub proof fn preferred_network_is_exclusive(
    e: ContainerEntry,
    network: Seq<char>,
    r: Resolved,
)
    requires
        resolves_to(e, Some(network), r),
        is_attached(e, Some(network)),
    ensures
        forall|ip: IpAddr| #[trigger]
            r.ips@.contains(ip) ==> exists|i: int|
                0 <= i < e.networks@.len() && (#[trigger] e.networks@[i]).0@ == network
                    && e.networks@[i].1@.contains(ip),
        r.ips@.len() > 0 <==> exists|i: int|
            0 <= i < e.networks@.len() && (#[trigger] e.networks@[i]).0@ == network
                && e.networks@[i].1@.len() > 0,
{
    first_where_matches(e.networks@, is_usable(network));
    if preferred_network(e, Some(network)) is Some {
        let n = preferred_network(e, Some(network))->0;
        let k = choose|k: int| 0 <= k < e.networks@.len() && e.networks@[k] == n;
        assert(e.networks@[k].0@ == network);
    } else {
        assert forall|i: int|
            0 <= i < e.networks@.len() && (
            #[trigger] e.networks@[i]).0@ == network implies e.networks@[i].1@.len() == 0 by {
            assert(!is_usable(network)(e.networks@[i]));
        }
    }
}

/// An address of a container is one on one of its networks.
proof fn all_ips_contains(networks: Seq<(String, Vec<IpAddr>)>, ip: IpAddr)
    ensures
        networks.flat_map(|n: (String, Vec<IpAddr>)| n.1@).contains(ip) <==> exists|i: int|
            0 <= i < networks.len() && (#[trigger] networks[i]).1@.contains(ip),
    decreases networks.len(),
{
    let f = |n: (String, Vec<IpAddr>)| n.1@;
    if networks.len() == 0 {
        assert(networks.map_values(f) =~= Seq::empty());
        assert(networks.flat_map(f) =~= Seq::empty());
    } else {
        let init = networks.drop_last();
        let last = networks.last();
        all_ips_contains(init, ip);
        init.lemma_flat_map_push(f, last);
        assert(networks =~= init.push(last));
        let a = init.flat_map(f);
        let b = last.1@;
        assert(networks.flat_map(f) =~= a + b);
        if a.contains(ip) {
            let i = choose|i: int| 0 <= i < init.len() && (#[trigger] init[i]).1@.contains(ip);
            assert(networks[i] == init[i]);
            let k = choose|k: int| 0 <= k < a.len() && a[k] == ip;
            assert((a + b)[k] == ip);
        }
        if b.contains(ip) {
            assert(networks[networks.len() - 1] == last);
            let k = choose|k: int| 0 <= k < b.len() && b[k] == ip;
            assert((a + b)[a.len() + k] == ip);
        }
        if exists|i: int| 0 <= i < networks.len() && (#[trigger] networks[i]).1@.contains(ip) {
            let i = choose|i: int|
                0 <= i < networks.len() && (#[trigger] networks[i]).1@.contains(ip);
            if i < init.len() {
                assert(init[i] == networks[i]);
            }
        }
        if (a + b).contains(ip) {
            let k = choose|k: int| 0 <= k < (a + b).len() && (a + b)[k] == ip;
            if k < a.len() {
                assert(a[k] == ip);
            } else {
                assert(b[k - a.len()] == ip);
            }
        }
    }
}

/// A container that is not attached to the preferred network has no address
/// on it.
proof fn unattached_is_unpreferred(e: ContainerEntry, prefer: Option<Seq<char>>)
    requires
        !is_attached(e, prefer),
    ensures
        preferred_network(e, prefer) is None,
{
    if let Some(p) = prefer {
        first_where_matches(e.networks@, is_usable(p));
        if first_where(e.networks@, is_usable(p)) is Some {
            let n = first_where(e.networks@, is_usable(p))->0;
            let k = choose|k: int| 0 <= k < e.networks@.len() && e.networks@[k] == n;
            assert(e.networks@[k].0@ == p);
        }
    }
}

/// If the container is not attached to a preferred network, every address of
/// it is returned, none twice, IPv4 before IPv6 and each family in order.
pub proof fn every_address_is_returned_once(
    e: ContainerEntry,
    prefer: Option<Seq<char>>,
    r: Resolved,
)
    requires
        resolves_to(e, prefer, r),
        !is_attached(e, prefer),
    ensures
        forall|ip: IpAddr| #[trigger]
            r.ips@.contains(ip) <==> exists|i: int|
                0 <= i < e.networks@.len() && (#[trigger] e.networks@[i]).1@.contains(ip),
        r.ips@.no_duplicates(),
        crate::order::ascending(r.ips@),
{
    unattached_is_unpreferred(e, prefer);
    assert forall|ip: IpAddr| #[trigger] r.ips@.contains(ip) <==> exists|i: int|
        0 <= i < e.networks@.len() && (#[trigger] e.networks@[i]).1@.contains(ip) by {
        all_ips_contains(e.networks@, ip);
    }
}

/// A listed container has at most one network of this name.
pub open spec fn at_most_one_network(c: ContainerSummary, name: Seq<char>) -> bool {
    forall|i: int, j: int|
        0 <= i < items(c.networks).len() && 0 <= j < items(c.networks).len()
            && crate::text::lower((#[trigger] items(c.networks)[i]).name@) == name
            && crate::text::lower((#[trigger] items(c.networks)[j]).name@) == name ==> i == j
}

/// The listed container has the address `ip` on one of its networks.
pub open spec fn has_address(c: ContainerSummary, ip: IpAddr) -> bool {
    exists|i: int|
        0 <= i < items(c.networks).len() && network_ips(#[trigger] items(c.networks)[i]).contains(ip)
}

/// The addresses of an index entry are those of the container it describes.
proof fn entry_addresses(c: ContainerSummary, e: ContainerEntry, ip: IpAddr)
    requires
        describes(e, c),
    ensures
        all_ips(e).contains(ip) <==> has_address(c, ip),
{
    let nets = items(c.networks);
    all_ips_contains(e.networks@, ip);
    if exists|i: int| 0 <= i < nets.len() && network_ips(#[trigger] nets[i]).contains(ip) {
        let i = choose|i: int| 0 <= i < nets.len() && network_ips(#[trigger] nets[i]).contains(ip);
        assert(describes_network(e.networks@[i], nets[i]));
        assert(e.networks@[i].1@.contains(ip));
    }
    if exists|i: int| 0 <= i < e.networks@.len() && (#[trigger] e.networks@[i]).1@.contains(ip) {
        let i = choose|i: int|
            0 <= i < e.networks@.len() && (#[trigger] e.networks@[i]).1@.contains(ip);
        assert(describes_network(e.networks@[i], nets[i]));
    }
}

/// The listed container has the address `ip` on its network called `name`.
pub open spec fn has_address_on(c: ContainerSummary, name: Seq<char>, ip: IpAddr) -> bool {
    exists|i: int|
        0 <= i < items(c.networks).len() && crate::text::lower(
            (#[trigger] items(c.networks)[i]).name@,
        ) == name && network_ips(items(c.networks)[i]).contains(ip)
}

/// The listed container is attached to a network called `name`.
pub open spec fn is_attached_to(c: ContainerSummary, name: Seq<char>) -> bool {
    exists|i: int|
        0 <= i < items(c.networks).len() && crate::text::lower(
            (#[trigger] items(c.networks)[i]).name@,
        ) == name
}

/// `ip` is an address to give out for the container: one on the preferred
/// network if it is attached to it, else any of its addresses.
pub open spec fn serves(c: ContainerSummary, prefer: Option<Seq<char>>, ip: IpAddr) -> bool {
    match prefer {
        Some(p) if is_attached_to(c, p) => has_address_on(c, p, ip),
        _ => has_address(c, ip),
    }
}

/// An index entry is attached to the networks that its container is attached
/// to.
proof fn entry_attachment(c: ContainerSummary, e: ContainerEntry, p: Seq<char>)
    requires
        describes(e, c),
    ensures
        is_attached(e, Some(p)) <==> is_attached_to(c, p),
{
    let nets = items(c.networks);
    if is_attached_to(c, p) {
        let i = choose|i: int|
            0 <= i < nets.len() && crate::text::lower((#[trigger] nets[i]).name@) == p;
        assert(describes_network(e.networks@[i], nets[i]));
    }
    if is_attached(e, Some(p)) {
        let i = choose|i: int| 0 <= i < e.networks@.len() && (#[trigger] e.networks@[i]).0@ == p;
        assert(describes_network(e.networks@[i], nets[i]));
    }
}

/// A lookup returns the addresses to give out for the container that the
/// entry describes, and no others, as long as the preferred name does not
/// stand for two of its networks.
pub proof fn lookup_returns_what_is_served(
    c: ContainerSummary,
    e: ContainerEntry,
    prefer: Option<Seq<char>>,
    r: Resolved,
    ip: IpAddr,
)
    requires
        describes(e, c),
        resolves_to(e, prefer, r),
        prefer is Some ==> at_most_one_network(c, prefer->0),
    ensures
        r.ips@.contains(ip) <==> serves(c, prefer, ip),
{
    let nets = items(c.networks);
    if !is_attached(e, prefer) {
        unattached_is_unpreferred(e, prefer);
        entry_addresses(c, e, ip);
        if let Some(p) = prefer {
            entry_attachment(c, e, p);
        }
    } else {
        let p = prefer->0;
        entry_attachment(c, e, p);
        first_where_matches(e.networks@, is_usable(p));
        if has_address_on(c, p, ip) {
            let j = choose|j: int|
                0 <= j < nets.len() && crate::text::lower((#[trigger] nets[j]).name@) == p
                    && network_ips(nets[j]).contains(ip);
            assert(describes_network(e.networks@[j], nets[j]));
            assert(is_usable(p)(e.networks@[j]));
            let n = preferred_network(e, prefer)->0;
            let k = choose|k: int| 0 <= k < e.networks@.len() && e.networks@[k] == n;
            assert(describes_network(e.networks@[k], nets[k]));
            assert(j == k);
        }
        if r.ips@.contains(ip) {
            let n = preferred_network(e, prefer)->0;
            let k = choose|k: int| 0 <= k < e.networks@.len() && e.networks@[k] == n;
            assert(describes_network(e.networks@[k], nets[k]));
        }
    }
}

/// One direction of `network_order_does_not_matter`.
proof fn reordered_preference(
    c: ContainerSummary,
    d: ContainerSummary,
    e: ContainerEntry,
    f: ContainerEntry,
    p: Seq<char>,
)
    requires
        describes(e, c),
        describes(f, d),
        items(c.networks).to_multiset() == items(d.networks).to_multiset(),
        at_most_one_network(c, p),
        first_where(e.networks@, is_usable(p)) is Some,
    ensures
        first_where(f.networks@, is_usable(p)) is Some,
        (first_where(f.networks@, is_usable(p))->0).1@ == (first_where(
            e.networks@,
            is_usable(p),
        )->0).1@,
{
    broadcast use vstd::seq_lib::group_to_multiset_ensures;

    let cn = items(c.networks);
    let dn = items(d.networks);
    first_where_matches(e.networks@, is_usable(p));
    first_where_matches(f.networks@, is_usable(p));
    let x = first_where(e.networks@, is_usable(p))->0;
    let i = choose|i: int| 0 <= i < e.networks@.len() && e.networks@[i] == x;
    assert(describes_network(e.networks@[i], cn[i]));
    assert(cn.contains(cn[i]));
    assert(dn.to_multiset().count(cn[i]) > 0);
    assert(dn.contains(cn[i]));
    let j = choose|j: int| 0 <= j < dn.len() && dn[j] == cn[i];
    assert(describes_network(f.networks@[j], dn[j]));
    assert(is_usable(p)(f.networks@[j]));
    let y = first_where(f.networks@, is_usable(p))->0;
    let k = choose|k: int| 0 <= k < f.networks@.len() && f.networks@[k] == y;
    assert(describes_network(f.networks@[k], dn[k]));
    assert(dn.contains(dn[k]));
    assert(cn.to_multiset().count(dn[k]) > 0);
    assert(cn.contains(dn[k]));
    let m = choose|m: int| 0 <= m < cn.len() && cn[m] == dn[k];
    assert(crate::text::lower(cn[m].name@) == p && crate::text::lower(cn[i].name@) == p);
    assert(m == i);
}

/// The order of the networks has no influence on which there are.
proof fn reordered_attachment(
    c: ContainerSummary,
    d: ContainerSummary,
    e: ContainerEntry,
    f: ContainerEntry,
    p: Seq<char>,
)
    requires
        describes(e, c),
        describes(f, d),
        items(c.networks).to_multiset() == items(d.networks).to_multiset(),
        is_attached(e, Some(p)),
    ensures
        is_attached(f, Some(p)),
{
    broadcast use vstd::seq_lib::group_to_multiset_ensures;

    let cn = items(c.networks);
    let dn = items(d.networks);
    entry_attachment(c, e, p);
    let i = choose|i: int| 0 <= i < cn.len() && crate::text::lower((#[trigger] cn[i]).name@) == p;
    assert(cn.contains(cn[i]));
    assert(dn.to_multiset().count(cn[i]) > 0);
    assert(dn.contains(cn[i]));
    let j = choose|j: int| 0 <= j < dn.len() && dn[j] == cn[i];
    assert(crate::text::lower(dn[j].name@) == p);
    entry_attachment(d, f, p);
}

/// The order in which the networks of a container are listed has no influence
/// on the addresses that are returned for it, as long as the preferred name
/// does not stand for two of them.
pub proof fn network_order_does_not_matter(
    c: ContainerSummary,
    d: ContainerSummary,
    e: ContainerEntry,
    f: ContainerEntry,
    prefer: Option<Seq<char>>,
    re: Resolved,
    rf: Resolved,
)
    requires
        items(c.networks).to_multiset() == items(d.networks).to_multiset(),
        describes(e, c),
        describes(f, d),
        resolves_to(e, prefer, re),
        resolves_to(f, prefer, rf),
        prefer is Some ==> at_most_one_network(c, prefer->0) && at_most_one_network(d, prefer->0),
    ensures
        re.ips@ == rf.ips@,
{
    broadcast use vstd::seq_lib::group_to_multiset_ensures;

    if preferred_network(e, prefer) is Some {
        reordered_preference(c, d, e, f, prefer->0);
    } else if preferred_network(f, prefer) is Some {
        reordered_preference(d, c, f, e, prefer->0);
    } else if is_attached(e, prefer) {
        reordered_attachment(c, d, e, f, prefer->0);
        assert(re.ips@ =~= rf.ips@);
    } else if is_attached(f, prefer) {
        reordered_attachment(d, c, f, e, prefer->0);
    } else {
        let cn = items(c.networks);
        let dn = items(d.networks);
        assert forall|ip: IpAddr| #[trigger] all_ips(e).contains(ip) <==> all_ips(f).contains(ip) by {
            entry_addresses(c, e, ip);
            entry_addresses(d, f, ip);
            if exists|i: int| 0 <= i < cn.len() && network_ips(#[trigger] cn[i]).contains(ip) {
                let i = choose|i: int|
                    0 <= i < cn.len() && network_ips(#[trigger] cn[i]).contains(ip);
                assert(cn.contains(cn[i]));
                assert(dn.to_multiset().count(cn[i]) > 0);
                assert(dn.contains(cn[i]));
                let k = choose|k: int| 0 <= k < dn.len() && dn[k] == cn[i];
                assert(network_ips(dn[k]).contains(ip));
            }
            if exists|i: int| 0 <= i < dn.len() && network_ips(#[trigger] dn[i]).contains(ip) {
                let i = choose|i: int|
                    0 <= i < dn.len() && network_ips(#[trigger] dn[i]).contains(ip);
                assert(dn.contains(dn[i]));
                assert(cn.to_multiset().count(dn[i]) > 0);
                assert(cn.contains(dn[i]));
                let k = choose|k: int| 0 <= k < cn.len() && cn[k] == dn[i];
                assert(network_ips(cn[k]).contains(ip));
            }
        }
        crate::order::sorted_set_is_unique(re.ips@, rf.ips@, all_ips(e), all_ips(f));
    }
}

/// Two results of a lookup, of which nothing but the memory they stand in
/// differs.
pub open spec fn same_resolved(a: Option<Resolved>, b: Option<Resolved>) -> bool {
    match (a, b) {
        (Some(a), Some(b)) => a.ips@ == b.ips@ && a.ports@ == b.ports@ && a.labels@ == b.labels@,
        (None, None) => true,
        _ => false,
    }
}

/// The same lookup in the same index has the same result.
pub proof fn lookup_is_deterministic(
    index: &ContainerIndex,
    name: Seq<char>,
    prefer: Option<Seq<char>>,
    a: Option<Resolved>,
    b: Option<Resolved>,
)
    requires
        is_lookup(*index, name, prefer, a),
        is_lookup(*index, name, prefer, b),
    ensures
        same_resolved(a, b),
{
    if let Some(e) = first_where(index.entries@, answers_to(name)) {
        let x = a->0.ips@;
        let y = b->0.ips@;
        if preferred_network(e, prefer) is None {
            if is_attached(e, prefer) {
                assert(x =~= y);
            } else {
                crate::order::sorted_set_is_unique(x, y, all_ips(e), all_ips(e));
            }
        }
    }
}

/// The first match is the one with no match in front of it.
pub proof fn first_where_is_first<T>(s: Seq<T>, p: spec_fn(T) -> bool, i: int)
    requires
        0 <= i < s.len(),
        p(s[i]),
        forall|k: int| 0 <= k < i ==> !p(#[trigger] s[k]),
    ensures
        first_where(s, p) == Some(s[i]),
    decreases i,
{
    if i > 0 {
        assert(!p(s[0]));
        let rest = s.drop_first();
        assert forall|k: int| 0 <= k < i - 1 implies !p(#[trigger] rest[k]) by {
            assert(rest[k] == s[k + 1]);
        }
        assert(rest[i - 1] == s[i]);
        first_where_is_first(rest, p, i - 1);
    }
}

/// An optional list has the items of the list, and none where it is not there.
pub proof fn items_are_those_of_the_list<T>(list: Option<Vec<T>>)
    ensures
        list is Some ==> items(list) == list->0@,
        list is None ==> items(list).len() == 0,
{
}

/// `s` is `u` behind slashes, if any, and `u` does not begin with another.
pub open spec fn is_behind_slashes(s: Seq<char>, u: Seq<char>) -> bool {
    &&& u.len() > 0 ==> u[0] != '/'
    &&& u.len() <= s.len()
    &&& s == crate::text::repeated('/', (s.len() - u.len()) as nat) + u
}

/// A container goes by the names that it was given, without slashes in front,
/// by its compose service name, and by its aliases on its networks, all in
/// lower case.
pub open spec fn goes_by(c: ContainerSummary, t: Seq<char>) -> bool {
    ||| c.names is Some && exists|i: int, u: Seq<char>|
        0 <= i < c.names->0@.len() && #[trigger] is_behind_slashes(c.names->0@[i]@, u) && t
            == crate::text::lower(u)
    ||| c.labels is Some && c.labels->0@.contains_key("com.docker.compose.service"@) && t
        == crate::text::lower(c.labels->0@["com.docker.compose.service"@])
    ||| c.networks is Some && exists|i: int, j: int|
        0 <= i < c.networks->0@.len() && c.networks->0@[i].aliases is Some && 0 <= j
            < c.networks->0@[i].aliases->0@.len() && t == crate::text::lower(
            (#[trigger] c.networks->0@[i].aliases->0@[j])@,
        )
}

/// An index entry has exactly the names that its container goes by.
pub proof fn entry_has_the_names(c: ContainerSummary, e: ContainerEntry, t: Seq<char>)
    requires
        describes(e, c),
    ensures
        e.names@.contains(t) <==> goes_by(c, t),
{
    let drop = |x: char| x == '/';
    if is_own_name(c, t) {
        let i = choose|i: int|
            0 <= i < items(c.names).len() && t == crate::text::lower(
                crate::text::trim_front((#[trigger] items(c.names)[i])@, drop),
            );
        let s = items(c.names)[i]@;
        let a = crate::text::front_comes_apart(s, drop);
        let u = crate::text::trim_front(s, drop);
        assert(a =~= crate::text::repeated('/', a.len()));
        assert(is_behind_slashes(c.names->0@[i]@, u));
    }
    if c.names is Some && exists|i: int, u: Seq<char>|
        0 <= i < c.names->0@.len() && #[trigger] is_behind_slashes(c.names->0@[i]@, u) && t
            == crate::text::lower(u) {
        let (i, u) = choose|i: int, u: Seq<char>|
            0 <= i < c.names->0@.len() && #[trigger] is_behind_slashes(c.names->0@[i]@, u) && t
                == crate::text::lower(u);
        let s = items(c.names)[i]@;
        crate::text::front_is_trimmed(
            crate::text::repeated('/', (s.len() - u.len()) as nat),
            u,
            drop,
        );
        assert(is_own_name(c, t));
    }
    if is_alias(c, t) {
        let i = choose|i: int|
            0 <= i < items(c.networks).len() && is_alias_on(#[trigger] items(c.networks)[i], t);
        let n = items(c.networks)[i];
        let j = choose|j: int|
            0 <= j < items(n.aliases).len() && t == crate::text::lower(
                (#[trigger] items(n.aliases)[j])@,
            );
        assert(t == crate::text::lower(c.networks->0@[i].aliases->0@[j]@));
    }
    if c.networks is Some && exists|i: int, j: int|
        0 <= i < c.networks->0@.len() && c.networks->0@[i].aliases is Some && 0 <= j
            < c.networks->0@[i].aliases->0@.len() && t == crate::text::lower(
            (#[trigger] c.networks->0@[i].aliases->0@[j])@,
        ) {
        let (i, j) = choose|i: int, j: int|
            0 <= i < c.networks->0@.len() && c.networks->0@[i].aliases is Some && 0 <= j
                < c.networks->0@[i].aliases->0@.len() && t == crate::text::lower(
                (#[trigger] c.networks->0@[i].aliases->0@[j])@,
            );
        let n = items(c.networks)[i];
        assert(t == crate::text::lower(items(n.aliases)[j]@));
        assert(is_alias_on(n, t));
        assert(is_alias(c, t));
    }
}

/// The optional text `s` writes the address `ip`.
pub open spec fn writes_ip(s: Option<String>, ip: IpAddr) -> bool {
    s is Some && match ip {
        IpAddr::V4(v) => s->0@ == crate::addr::quad_of(v),
        IpAddr::V6(w) => crate::addr::ipv6_text(s->0@) == Some(w) && forall|x: u32|
            s->0@ != #[trigger] crate::addr::quad_of(x),
    }
}

/// The addresses of a text are the one that it writes.
proof fn text_has_its_address(s: Option<String>)
    ensures
        opt_ip(s).len() <= 1,
        forall|ip: IpAddr| #[trigger] writes_ip(s, ip) <==> opt_ip(s).len() == 1 && opt_ip(s)[0] == ip,
{
    assert forall|ip: IpAddr| #[trigger] writes_ip(s, ip) <==> opt_ip(s).len() == 1 && opt_ip(s)[0]
        == ip by {
        if s is Some {
            match ip {
                IpAddr::V4(v) => crate::addr::ip_is_read_as_written(s->0@, v, 0),
                IpAddr::V6(w) => crate::addr::ip_is_read_as_written(s->0@, 0, w),
            }
        }
    }
}

/// An index entry has the networks of its container in their order, under
/// their names in lower case, and on each of them the addresses that are
/// written there: first that of the endpoint, then its global IPv6 address.
pub proof fn entry_has_the_networks(c: ContainerSummary, e: ContainerEntry, i: int)
    requires
        describes(e, c),
    ensures
        c.networks is None ==> e.networks@.len() == 0,
        c.networks is Some ==> e.networks@.len() == c.networks->0@.len(),
        0 <= i < e.networks@.len() ==> {
            let n = c.networks->0@[i];
            let ips = e.networks@[i].1@;
            &&& e.networks@[i].0@ == crate::text::lower(n.name@)
            &&& forall|ip: IpAddr| #[trigger]
                writes_ip(n.ip_address, ip) ==> ips.len() > 0 && ips[0] == ip
            &&& forall|ip: IpAddr| #[trigger]
                writes_ip(n.global_ipv6_address, ip) ==> ips.len() > 0 && ips.last() == ip
            &&& forall|ip: IpAddr| #[trigger]
                ips.contains(ip) <==> writes_ip(n.ip_address, ip) || writes_ip(
                    n.global_ipv6_address,
                    ip,
                )
            &&& ips.len() == 2 <==> (exists|ip: IpAddr| #[trigger] writes_ip(n.ip_address, ip)) && (
            exists|ip: IpAddr| #[trigger] writes_ip(n.global_ipv6_address, ip))
            &&& ips.len() <= 2
        },
{
    if 0 <= i < e.networks@.len() {
        let n = c.networks->0@[i];
        let ips = e.networks@[i].1@;
        let a = opt_ip(n.ip_address);
        let b = opt_ip(n.global_ipv6_address);
        assert(describes_network(e.networks@[i], items(c.networks)[i]));
        assert(ips == a + b);
        text_has_its_address(n.ip_address);
        text_has_its_address(n.global_ipv6_address);
        assert forall|ip: IpAddr| #[trigger] ips.contains(ip) <==> writes_ip(n.ip_address, ip)
            || writes_ip(n.global_ipv6_address, ip) by {
            if ips.contains(ip) {
                let k = choose|k: int| 0 <= k < ips.len() && ips[k] == ip;
                if k < a.len() {
                    assert(a[0] == ip);
                } else {
                    assert(b[0] == ip);
                }
            }
            if writes_ip(n.ip_address, ip) {
                assert(ips[0] == ip);
            }
            if writes_ip(n.global_ipv6_address, ip) {
                assert(ips[a.len() as int] == ip);
            }
        }
        if a.len() == 1 {
            assert(writes_ip(n.ip_address, a[0]));
        }
        if b.len() == 1 {
            assert(writes_ip(n.global_ipv6_address, b[0]));
        }
    }
}

/// An index entry has the TCP and UDP ports that its container exposes, in
/// the order of their numbers and TCP first, each once.
pub proof fn entry_has_the_ports(c: ContainerSummary, e: ContainerEntry, p: u16, proto: Proto)
    requires
        describes(e, c),
    ensures
        e.ports@.contains((p, proto)) <==> c.ports is Some && exists|i: int|
            0 <= i < c.ports->0@.len() && (#[trigger] c.ports->0@[i]).private_port == p
                && c.ports->0@[i].typ == Some(
                match proto {
                    Proto::Tcp => PortType::Tcp,
                    Proto::Udp => PortType::Udp,
                },
            ),
        forall|i: int, j: int|
            0 <= i < j < e.ports@.len() ==> (#[trigger] e.ports@[i]).0 < (#[trigger] e.ports@[j]).0
                || (e.ports@[i].0 == e.ports@[j].0 && e.ports@[i].1 == Proto::Tcp && e.ports@[j].1
                == Proto::Udp),
{
    let f = |x: Port| port_of(x);
    let list = items(c.ports);
    crate::order::filter_map_holds(list, f, (p, proto));
    assert(e.ports@.contains((p, proto)) <==> list.filter_map(f).contains((p, proto)));
    if e.ports@.contains((p, proto)) {
        let k = choose|k: int| 0 <= k < list.len() && f(#[trigger] list[k]) == Some((p, proto));
        assert(c.ports->0@[k] == list[k]);
    }
    if c.ports is Some && exists|i: int|
        0 <= i < c.ports->0@.len() && (#[trigger] c.ports->0@[i]).private_port == p
            && c.ports->0@[i].typ == Some(
            match proto {
                Proto::Tcp => PortType::Tcp,
                Proto::Udp => PortType::Udp,
            },
        ) {
        let i = choose|i: int|
            0 <= i < c.ports->0@.len() && (#[trigger] c.ports->0@[i]).private_port == p
                && c.ports->0@[i].typ == Some(
                match proto {
                    Proto::Tcp => PortType::Tcp,
                    Proto::Udp => PortType::Udp,
                },
            );
        assert(f(list[i]) == Some((p, proto)));
    }
    assert forall|i: int, j: int| 0 <= i < j < e.ports@.len() implies (#[trigger] e.ports@[i]).0 < (
    #[trigger] e.ports@[j]).0 || (e.ports@[i].0 == e.ports@[j].0 && e.ports@[i].1 == Proto::Tcp
        && e.ports@[j].1 == Proto::Udp) by {
        let x = e.ports@[i];
        let y = e.ports@[j];
        assert(x.rank() < y.rank());
        crate::order::ports_go_by_number(y.0, x.0, y.1, x.1);
        crate::order::ports_go_by_number(x.0, x.0, x.1, x.1);
    }
}

/// An index entry has the labels of its container.
pub proof fn entry_has_the_labels(c: ContainerSummary, e: ContainerEntry)
    requires
        describes(e, c),
    ensures
        c.labels is Some ==> e.labels@ == c.labels->0@,
        c.labels is None ==> e.labels@ == Map::<Seq<char>, Seq<char>>::empty(),
{
}

/// `a` comes before `b`: IPv4 before IPv6, and each family by its number.
pub open spec fn precedes(a: IpAddr, b: IpAddr) -> bool {
    match (a, b) {
        (IpAddr::V4(x), IpAddr::V4(y)) => x < y,
        (IpAddr::V6(x), IpAddr::V6(y)) => x < y,
        (IpAddr::V4(_), IpAddr::V6(_)) => true,
        (IpAddr::V6(_), IpAddr::V4(_)) => false,
    }
}

/// A name that no entry has is not found.
pub proof fn unknown_name_is_not_found(
    index: ContainerIndex,
    name: Seq<char>,
    prefer: Option<Seq<char>>,
    r: Option<Resolved>,
)
    requires
        is_lookup(index, name, prefer, r),
        forall|i: int|
            0 <= i < index.entries@.len() ==> !(#[trigger] index.entries@[i]).names@.contains(name),
    ensures
        r is None,
{
    first_where_matches(index.entries@, answers_to(name));
    if first_where(index.entries@, answers_to(name)) is Some {
        let e = first_where(index.entries@, answers_to(name))->0;
        let k = choose|k: int| 0 <= k < index.entries@.len() && index.entries@[k] == e;
        assert(!index.entries@[k].names@.contains(name));
    }
}

/// The first entry of a name is the one that is found, with its ports and
/// labels.
/// - Without a preferred network, or if the entry has no network of that name,
///   all its addresses are returned, in order and none twice.
/// - Else only those of the first network of that name that has any.
/// - None, if there is no such network.
pub proof fn first_entry_is_found(
    index: ContainerIndex,
    name: Seq<char>,
    prefer: Option<Seq<char>>,
    r: Option<Resolved>,
    i: int,
    k: int,
    ip: IpAddr,
)
    requires
        is_lookup(index, name, prefer, r),
        0 <= i < index.entries@.len(),
        index.entries@[i].names@.contains(name),
        forall|j: int| 0 <= j < i ==> !(#[trigger] index.entries@[j]).names@.contains(name),
    ensures
        r is Some,
        r->0.ports@ == index.entries@[i].ports@,
        r->0.labels@ == index.entries@[i].labels@,
        ({
            let nets = index.entries@[i].networks@;
            let ips = r->0.ips@;
            let attached = prefer is Some && exists|j: int|
                0 <= j < nets.len() && (#[trigger] nets[j]).0@ == prefer->0;
            &&& !attached ==> {
                &&& ips.contains(ip) <==> exists|j: int|
                    0 <= j < nets.len() && (#[trigger] nets[j]).1@.contains(ip)
                &&& forall|a: int, b: int|
                    0 <= a < b < ips.len() ==> precedes(#[trigger] ips[a], #[trigger] ips[b])
            }
            &&& prefer is Some && 0 <= k < nets.len() && nets[k].0@ == prefer->0 && nets[k].1@.len()
                > 0 && (forall|j: int|
                0 <= j < k && (#[trigger] nets[j]).0@ == prefer->0 ==> nets[j].1@.len() == 0)
                ==> ips == nets[k].1@
            &&& attached && (forall|j: int|
                0 <= j < nets.len() && (#[trigger] nets[j]).0@ == prefer->0 ==> nets[j].1@.len()
                    == 0) ==> ips.len() == 0
        }),
{
    let entries = index.entries@;
    let p = answers_to(name);
    assert forall|j: int| 0 <= j < i implies !p(#[trigger] entries[j]) by {
        assert(!entries[j].names@.contains(name));
    }
    first_where_is_first(entries, p, i);
    let e = entries[i];
    let nets = e.networks@;
    let ips = r->0.ips@;
    if !is_attached(e, prefer) {
        unattached_is_unpreferred(e, prefer);
        every_address_is_returned_once(e, prefer, r->0);
        assert forall|a: int, b: int| 0 <= a < b < ips.len() implies precedes(
            #[trigger] ips[a],
            #[trigger] ips[b],
        ) by {
            let x = ips[a];
            let y = ips[b];
            assert(x.rank() < y.rank());
            match (x, y) {
                (IpAddr::V4(m), IpAddr::V4(n)) => {
                    crate::order::addresses_go_by_family_and_number(m, n, 0, 0);
                },
                (IpAddr::V6(m), IpAddr::V6(n)) => {
                    crate::order::addresses_go_by_family_and_number(0, 0, m, n);
                },
                (IpAddr::V6(m), IpAddr::V4(n)) => {
                    crate::order::addresses_go_by_family_and_number(n, n, m, m);
                },
                _ => {},
            }
        }
    } else {
        let net = prefer->0;
        let u = is_usable(net);
        first_where_matches(nets, u);
        if 0 <= k < nets.len() && nets[k].0@ == net && nets[k].1@.len() > 0 && (forall|j: int|
            0 <= j < k && (#[trigger] nets[j]).0@ == net ==> nets[j].1@.len() == 0) {
            assert forall|j: int| 0 <= j < k implies !u(#[trigger] nets[j]) by {}
            first_where_is_first(nets, u, k);
        }
        if forall|j: int|
            0 <= j < nets.len() && (#[trigger] nets[j]).0@ == net ==> nets[j].1@.len() == 0 {
            if first_where(nets, u) is Some {
                let n = first_where(nets, u)->0;
                let j = choose|j: int| 0 <= j < nets.len() && nets[j] == n;
                assert(nets[j].0@ == net);
            }
        }
    }
}

} // verus!
