//! Resolving a container name: the Docker socket first, then the fallback.

use std::sync::Arc;
use vstd::prelude::*;
use vstd::string::*;

use crate::addr::IpAddr;
use crate::container::Resolved;
use crate::handler::Handler;
use crate::index::{ContainerIndex, ContainerSummary};
use crate::labels::Labels;
use crate::text::concat;

verus! {

/// What has happened so far in resolving a name.
pub enum ResolveEvent {
    /// Nothing yet.
    Begin,
    /// The Docker socket gave the index of containers.
    Index(Arc<ContainerIndex>),
    /// The Docker socket failed.
    IndexFailed,
    /// The fallback DNS server gave these addresses.
    Addresses(Vec<IpAddr>),
    /// The fallback DNS server failed or has no records.
    LookupFailed,
}

/// What to do next in resolving a name.
pub enum ResolveAction {
    /// Ask the Docker socket for the index of containers.
    AskDocker,
    /// Ask the fallback DNS server for the addresses of this name.
    AskFallback(String),
    /// Done. `None` means: name unknown.
    Done(Option<Resolved>),
}

/// The next step once Docker has nothing to say: the fallback DNS server,
/// where there is one, for the name with a dot behind it.
pub open spec fn is_fallback(h: Handler, name: Seq<char>, r: ResolveAction) -> bool {
    if h.fallback {
        r matches ResolveAction::AskFallback(t) && t@ == name + seq!['.']
    } else {
        r == ResolveAction::Done(None)
    }
}

/// The preferred network of a handler, as text.
pub open spec fn preference(h: Handler) -> Option<Seq<char>> {
    match h.prefer_network {
        Some(n) => Some(n@),
        None => None,
    }
}

/// `r` is the next step in resolving `name`.
pub open spec fn is_next(h: Handler, name: Seq<char>, event: ResolveEvent, r: ResolveAction) -> bool {
    match event {
        ResolveEvent::Begin => if h.docker {
            r == ResolveAction::AskDocker
        } else {
            is_fallback(h, name, r)
        },
        ResolveEvent::Index(index) => if crate::index::first_where(
            index.entries@,
            crate::index::answers_to(name),
        ) is Some {
            r matches ResolveAction::Done(found) && crate::index::is_lookup(
                *index,
                name,
                preference(h),
                found,
            )
        } else {
            is_fallback(h, name, r)
        },
        ResolveEvent::IndexFailed => is_fallback(h, name, r),
        ResolveEvent::Addresses(ips) => if ips@.len() > 0 {
            &&& r matches ResolveAction::Done(Some(found))
            &&& found.ips@ == ips@
            &&& found.ports@.len() == 0
            &&& found.labels@ == Map::<Seq<char>, Seq<char>>::empty()
        } else {
            r == ResolveAction::Done(None)
        },
        ResolveEvent::LookupFailed => r == ResolveAction::Done(None),
    }
}

impl Handler {
    /// The step that follows where Docker has nothing to say.
    fn next_fallback(&self, name: &str) -> (r: ResolveAction)
        ensures
            is_fallback(*self, name@, r),
    {
        if self.fallback {
            proof {
                reveal_strlit(".");
            }
            // Trailing dot: keep the resolver from appending search domains.
            let text = concat(name, ".");
            assert(text@ =~= name@ + seq!['.']);
            ResolveAction::AskFallback(text)
        } else {
            ResolveAction::Done(None)
        }
    }

    /// Resolve a container name (root domain and any SRV prefix already
    /// stripped), step by step: from what happened to what to do.
    pub fn resolve(&self, name: &str, event: ResolveEvent) -> (r: ResolveAction)
        ensures
            is_next(*self, name@, event, r),
    {
        match event {
            ResolveEvent::Begin => {
                if self.docker {
                    ResolveAction::AskDocker
                } else {
                    self.next_fallback(name)
                }
            },
            ResolveEvent::Index(index) => {
                let prefer = match &self.prefer_network {
                    Some(n) => Some(n.as_str()),
                    None => None,
                };
                match index.lookup(name, prefer) {
                    Some(found) => ResolveAction::Done(Some(found)),
                    None => self.next_fallback(name),
                }
            },
            ResolveEvent::IndexFailed => self.next_fallback(name),
            ResolveEvent::Addresses(ips) => {
                if ips.is_empty() {
                    ResolveAction::Done(None)
                } else {
                    ResolveAction::Done(
                        Some(Resolved { ips, ports: Vec::new(), labels: Arc::new(Labels::new()) }),
                    )
                }
            },
            ResolveEvent::LookupFailed => ResolveAction::Done(None),
        }
    }
}

/// Whether `event` is an answer to the question that `action` asks.
pub open spec fn replies_to(action: ResolveAction, event: ResolveEvent) -> bool {
    match action {
        ResolveAction::AskDocker => event is Index || event is IndexFailed,
        ResolveAction::AskFallback(_) => event is Addresses || event is LookupFailed,
        ResolveAction::Done(_) => false,
    }
}

/// Docker is preferred: a name that the index knows is answered from it, and
/// the fallback is not asked.
pub proof fn docker_is_preferred(
    h: Handler,
    name: Seq<char>,
    index: Arc<ContainerIndex>,
    r: ResolveAction,
)
    requires
        is_next(h, name, ResolveEvent::Index(index), r),
        exists|i: int|
            0 <= i < index.entries@.len() && (#[trigger] index.entries@[i]).names@.contains(name),
    ensures
        r matches ResolveAction::Done(Some(found)) && crate::index::is_lookup(
            *index,
            name,
            preference(h),
            Some(found),
        ),
{
    let i = choose|i: int|
        0 <= i < index.entries@.len() && (#[trigger] index.entries@[i]).names@.contains(name);
    crate::index::first_where_matches(index.entries@, crate::index::answers_to(name));
    assert(crate::index::answers_to(name)(index.entries@[i]));
}

/// A container of the list is found under each of its names.
pub proof fn listed_container_is_found(
    h: Handler,
    containers: Seq<ContainerSummary>,
    index: Arc<ContainerIndex>,
    name: Seq<char>,
    i: int,
    r: ResolveAction,
)
    requires
        crate::docker::is_index_of(*index, containers),
        0 <= i < containers.len(),
        crate::index::is_name_of(containers[i], name),
        is_next(h, name, ResolveEvent::Index(index), r),
    ensures
        r matches ResolveAction::Done(Some(_)),
{
    assert(crate::index::describes(index.entries@[i], containers[i]));
    assert(index.entries@[i].names@.contains(name));
    docker_is_preferred(h, name, index, r);
}

/// A failure of Docker, or a name that it does not know, is made good by the
/// fallback where there is one.
pub proof fn fallback_is_second(h: Handler, name: Seq<char>, event: ResolveEvent, r: ResolveAction)
    requires
        h.fallback,
        is_next(h, name, event, r),
        event is IndexFailed || (event is Index && forall|i: int|
            0 <= i < event->Index_0.entries@.len() ==> !(
            #[trigger] event->Index_0.entries@[i]).names@.contains(name)),
    ensures
        r matches ResolveAction::AskFallback(t) && t@ == name + seq!['.'],
{
    if event is Index {
        let entries = event->Index_0.entries@;
        crate::index::first_where_matches(entries, crate::index::answers_to(name));
        if crate::index::first_where(entries, crate::index::answers_to(name)) is Some {
            let e = crate::index::first_where(entries, crate::index::answers_to(name))->0;
            let k = choose|k: int| 0 <= k < entries.len() && entries[k] == e;
            assert(!entries[k].names@.contains(name));
        }
    }
}

/// Resolving comes to an end: Docker is asked at most once, the fallback at
/// most once, and Docker never after the fallback.
pub proof fn resolving_ends(
    h: Handler,
    name: Seq<char>,
    a0: ResolveAction,
    e1: ResolveEvent,
    a1: ResolveAction,
    e2: ResolveEvent,
    a2: ResolveAction,
)
    requires
        is_next(h, name, ResolveEvent::Begin, a0),
        replies_to(a0, e1),
        is_next(h, name, e1, a1),
        replies_to(a1, e2),
        is_next(h, name, e2, a2),
    ensures
        a0 is AskDocker,
        a1 is AskFallback,
        a2 is Done,
{
}

/// What was never asked is never used: without a Docker socket no index is
/// looked at, without a fallback no server is asked.
pub proof fn only_what_is_configured_is_asked(
    h: Handler,
    name: Seq<char>,
    event: ResolveEvent,
    r: ResolveAction,
)
    requires
        is_next(h, name, event, r),
    ensures
        r is AskDocker ==> h.docker && event is Begin,
        r is AskFallback ==> h.fallback,
{
}

/// The same step, of which nothing but the memory it stands in differs.
pub open spec fn same_action(a: ResolveAction, b: ResolveAction) -> bool {
    match (a, b) {
        (ResolveAction::AskDocker, ResolveAction::AskDocker) => true,
        (ResolveAction::AskFallback(s), ResolveAction::AskFallback(t)) => s@ == t@,
        (ResolveAction::Done(x), ResolveAction::Done(y)) => crate::index::same_resolved(x, y),
        _ => false,
    }
}

/// Resolving the same name from the same answers of Docker and the fallback
/// takes the same steps and has the same result.
pub proof fn resolving_is_deterministic(
    h: Handler,
    name: Seq<char>,
    event: ResolveEvent,
    a: ResolveAction,
    b: ResolveAction,
)
    requires
        is_next(h, name, event, a),
        is_next(h, name, event, b),
    ensures
        same_action(a, b),
{
    if event is Addresses && event->Addresses_0@.len() > 0 {
        assert(a->Done_0->0.ports@ =~= b->Done_0->0.ports@);
    }
    if event is Index {
        let index = event->Index_0;
        if crate::index::first_where(index.entries@, crate::index::answers_to(name)) is Some {
            crate::index::lookup_is_deterministic(
                &*index,
                name,
                preference(h),
                a->Done_0,
                b->Done_0,
            );
        }
    }
}

/// The preference of a handler is the name of its preferred network.
pub proof fn preference_is_the_network(h: Handler)
    ensures
        preference(h) is Some <==> h.prefer_network is Some,
        h.prefer_network is Some ==> preference(h)->0 == h.prefer_network->0@,
{
}

/// The addresses that the fallback server gives are the result, with neither
/// ports nor labels; the name is unknown only if there is none.
pub proof fn fallback_addresses_are_the_result(
    h: Handler,
    name: Seq<char>,
    ips: Vec<IpAddr>,
    r: ResolveAction,
)
    requires
        is_next(h, name, ResolveEvent::Addresses(ips), r),
    ensures
        r is Done,
        r->Done_0 is None <==> ips@.len() == 0,
        r->Done_0 matches Some(found) ==> {
            &&& found.ips@ == ips@
            &&& found.ports@.len() == 0
            &&& forall|key: Seq<char>| !#[trigger] found.labels@.contains_key(key)
        },
{
}

/// A name that the fallback server fails on is unknown.
pub proof fn failed_fallback_means_unknown(h: Handler, name: Seq<char>, r: ResolveAction)
    requires
        is_next(h, name, ResolveEvent::LookupFailed, r),
    ensures
        r is Done,
        r->Done_0 is None,
{
}

/// Docker is asked first where there is a socket, else the fallback where there
/// is one; with neither every name is unknown.
pub proof fn resolving_begins_with_docker(h: Handler, name: Seq<char>, r: ResolveAction)
    requires
        is_next(h, name, ResolveEvent::Begin, r),
    ensures
        r is AskDocker <==> h.docker,
        !h.docker && h.fallback ==> r is AskFallback && r->AskFallback_0@ == name.push('.'),
        !h.docker && !h.fallback ==> r is Done && r->Done_0 is None,
{
    assert(name + seq!['.'] =~= name.push('.'));
}

/// Without a fallback, a failure of Docker or a name that it does not know
/// means that the name is unknown.
pub proof fn without_fallback_docker_decides(
    h: Handler,
    name: Seq<char>,
    event: ResolveEvent,
    r: ResolveAction,
)
    requires
        !h.fallback,
        is_next(h, name, event, r),
        event is IndexFailed || (event is Index && forall|i: int|
            0 <= i < event->Index_0.entries@.len() ==> !(
            #[trigger] event->Index_0.entries@[i]).names@.contains(name)),
    ensures
        r is Done,
        r->Done_0 is None,
{
    if event is Index {
        let entries = event->Index_0.entries@;
        crate::index::first_where_matches(entries, crate::index::answers_to(name));
        if crate::index::first_where(entries, crate::index::answers_to(name)) is Some {
            let e = crate::index::first_where(entries, crate::index::answers_to(name))->0;
            let k = choose|k: int| 0 <= k < entries.len() && entries[k] == e;
            assert(!entries[k].names@.contains(name));
        }
    }
}

} // verus!
