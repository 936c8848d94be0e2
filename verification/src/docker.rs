//! The container index with its short-lived cache.

use std::sync::Arc;
use vstd::prelude::*;

use crate::index::{ContainerIndex, ContainerSummary};
use crate::labels::share;

verus! {

/// Nanoseconds in a second.
pub const NANOS_PER_SEC: u128 = 1_000_000_000;

/// Resolves container names via the Docker socket, with a short-lived cache
/// of the container list.
pub struct DockerResolver {
    /// When the index was built, in nanoseconds of a monotonic clock, and the
    /// index.
    pub cache: Option<(u128, Arc<ContainerIndex>)>,
    /// How long an index is served, in seconds.
    pub cache_secs: u64,
}

/// What has happened so far in getting an index.
pub enum IndexEvent {
    /// Nothing yet.
    Begin,
    /// The Docker socket gave the container list.
    Listed(Vec<ContainerSummary>),
    /// The Docker socket failed.
    ListFailed,
}

/// What to do next in getting an index.
pub enum IndexAction {
    /// List the running containers via the Docker socket.
    List,
    /// Use this index.
    Use(Arc<ContainerIndex>),
    /// There is no index.
    Fail,
}

/// The time from `start` to `now`; none where the clock stands before `start`.
pub open spec fn elapsed(start: u128, now: u128) -> int {
    if now >= start {
        now - start
    } else {
        0
    }
}

/// The cached index, unless it is too old.
pub open spec fn fresh(r: DockerResolver, now: u128) -> Option<Arc<ContainerIndex>> {
    match r.cache {
        Some((built, index)) => if elapsed(built, now) < r.cache_secs * NANOS_PER_SEC {
            Some(index)
        } else {
            None
        },
        None => None,
    }
}

/// `index` is the index of this container list.
pub open spec fn is_index_of(index: ContainerIndex, containers: Seq<ContainerSummary>) -> bool {
    &&& index.entries@.len() == containers.len()
    &&& forall|i: int|
        0 <= i < index.entries@.len() ==> crate::index::describes(
            #[trigger] index.entries@[i],
            containers[i],
        )
}

/// The step from `before` to `after` at the time `now`, with what happened and
/// what to do.
pub open spec fn is_index_step(
    before: DockerResolver,
    now: u128,
    event: IndexEvent,
    after: DockerResolver,
    r: IndexAction,
) -> bool {
    &&& after.cache_secs == before.cache_secs
    &&& match event {
        IndexEvent::Begin => after.cache == before.cache && r == match fresh(before, now) {
            Some(index) => IndexAction::Use(index),
            None => IndexAction::List,
        },
        IndexEvent::Listed(containers) => {
            &&& r matches IndexAction::Use(index)
            &&& is_index_of(*index, containers@)
            &&& after.cache == Some((now, index))
        },
        IndexEvent::ListFailed => after.cache == before.cache && r == IndexAction::Fail,
    }
}

/// `r` has nothing cached yet, and this cache time.
pub open spec fn is_new(cache_secs: u64, r: DockerResolver) -> bool {
    r.cache is None && r.cache_secs == cache_secs
}

impl DockerResolver {
    /// A resolver with nothing cached.
    pub fn new(cache_secs: u64) -> (r: DockerResolver)
        ensures
            is_new(cache_secs, r),
    {
        DockerResolver { cache: None, cache_secs }
    }

    /// Gets an index, step by step: from what happened, at the time `now`, to
    /// what to do. A cached index is used while it is fresh; a new list makes
    /// a new index, which is used and cached; a failure leaves the cache as it
    /// is.
    pub fn index(&mut self, now: u128, event: IndexEvent) -> (r: IndexAction)
        ensures
            is_index_step(*old(self), now, event, *final(self), r),
    {
        match event {
            IndexEvent::Begin => {
                if let Some((built, index)) = &self.cache {
                    let age: u128 = if now >= *built {
                        now - *built
                    } else {
                        0
                    };
                    let limit: u128 = self.cache_secs as u128 * NANOS_PER_SEC;
                    if age < limit {
                        return IndexAction::Use(share(index));
                    }
                }
                IndexAction::List
            },
            IndexEvent::Listed(containers) => {
                let index = Arc::new(ContainerIndex::build(containers));
                self.cache = Some((now, share(&index)));
                IndexAction::Use(index)
            },
            IndexEvent::ListFailed => IndexAction::Fail,
        }
    }
}

/// An index is served again for as long as the cache time says, and no longer.
pub proof fn index_is_cached(r: DockerResolver, built: u128, now: u128, index: Arc<ContainerIndex>)
    requires
        r.cache == Some((built, index)),
    ensures
        elapsed(built, now) < r.cache_secs * NANOS_PER_SEC ==> fresh(r, now) == Some(index),
        elapsed(built, now) >= r.cache_secs * NANOS_PER_SEC ==> fresh(r, now) is None,
{
}

/// An index that has become too old is not served again later.
pub proof fn stale_stays_stale(r: DockerResolver, now: u128, later: u128)
    requires
        fresh(r, now) is None,
        now <= later,
    ensures
        fresh(r, later) is None,
{
}

/// With a cache time of zero nothing is served from the cache.
pub proof fn zero_cache_time_disables_the_cache(r: DockerResolver, now: u128)
    requires
        r.cache_secs == 0,
    ensures
        fresh(r, now) is None,
{
}

/// An index has one entry per listed container, in their order.
pub proof fn index_has_every_container(
    index: ContainerIndex,
    containers: Seq<ContainerSummary>,
    i: int,
)
    requires
        is_index_of(index, containers),
    ensures
        index.entries@.len() == containers.len(),
        0 <= i < containers.len() ==> crate::index::describes(index.entries@[i], containers[i]),
{
    if 0 <= i < containers.len() {
        assert(crate::index::describes(index.entries@[i], containers[i]));
    }
}

/// At the start, a cached index is used if it is younger than the cache time;
/// else the containers are listed. The cache stays as it is.
pub proof fn young_index_is_used(
    before: DockerResolver,
    now: u128,
    after: DockerResolver,
    r: IndexAction,
)
    requires
        is_index_step(before, now, IndexEvent::Begin, after, r),
    ensures
        after == before,
        before.cache is None ==> r is List,
        before.cache matches Some((built, index)) ==> {
            let young = if now < built {
                before.cache_secs > 0
            } else {
                now - built < before.cache_secs * 1_000_000_000
            };
            r == if young {
                IndexAction::Use(index)
            } else {
                IndexAction::List
            }
        },
{
}

/// A list of containers makes an index, and from then on that very index is
/// used until the cache time has passed.
pub proof fn listed_index_is_used_again(
    before: DockerResolver,
    containers: Vec<ContainerSummary>,
    listed: u128,
    after: DockerResolver,
    r: IndexAction,
    now: u128,
    last: DockerResolver,
    again: IndexAction,
)
    requires
        is_index_step(before, listed, IndexEvent::Listed(containers), after, r),
        is_index_step(after, now, IndexEvent::Begin, last, again),
        listed <= now,
    ensures
        r is Use,
        is_index_of(*r->Use_0, containers@),
        after.cache == Some((listed, r->Use_0)),
        after.cache_secs == before.cache_secs,
        again == r <==> now - listed < before.cache_secs * 1_000_000_000,
        again is Use || again is List,
{
}

/// A failed listing gives no index and leaves the cache as it is.
pub proof fn failed_listing_changes_nothing(
    before: DockerResolver,
    now: u128,
    after: DockerResolver,
    r: IndexAction,
)
    requires
        is_index_step(before, now, IndexEvent::ListFailed, after, r),
    ensures
        r is Fail,
        after == before,
{
}

/// A new resolver lists the containers first, and serves what was listed for as
/// long as it was told to.
pub proof fn new_resolver_lists_first(
    cache_secs: u64,
    r: DockerResolver,
    start: u128,
    before: DockerResolver,
    first: IndexAction,
    containers: Vec<ContainerSummary>,
    listed: u128,
    after: DockerResolver,
    second: IndexAction,
    now: u128,
    last: DockerResolver,
    third: IndexAction,
)
    requires
        is_new(cache_secs, r),
        is_index_step(r, start, IndexEvent::Begin, before, first),
        is_index_step(before, listed, IndexEvent::Listed(containers), after, second),
        is_index_step(after, now, IndexEvent::Begin, last, third),
        listed <= now,
    ensures
        first is List,
        second is Use,
        now - listed < cache_secs * 1_000_000_000 ==> third == second,
        now - listed >= cache_secs * 1_000_000_000 ==> third is List,
{
}

} // verus!
