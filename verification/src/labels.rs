//! Container labels.

use std::sync::Arc;
use vstd::hash_map::StringHashMap;
use vstd::map_lib::*;
use vstd::prelude::*;
use vstd::string::*;

verus! {

/// The labels of a container: text by text.
pub struct Labels {
    map: StringHashMap<String>,
}

impl View for Labels {
    type V = Map<Seq<char>, Seq<char>>;

    closed spec fn view(&self) -> Map<Seq<char>, Seq<char>> {
        self.map@.map_values(|v: String| v@)
    }
}

/// `after` is `before` with the label `key` set to `value`.
pub open spec fn is_set(
    before: Map<Seq<char>, Seq<char>>,
    key: Seq<char>,
    value: Seq<char>,
    after: Map<Seq<char>, Seq<char>>,
) -> bool {
    after == before.insert(key, value)
}

/// `r` is the value of the label `key`, where there is one.
pub open spec fn is_value(
    labels: Map<Seq<char>, Seq<char>>,
    key: Seq<char>,
    r: Option<Seq<char>>,
) -> bool {
    match r {
        Some(v) => labels.contains_key(key) && labels[key] == v,
        None => !labels.contains_key(key),
    }
}

impl Labels {
    /// No labels.
    pub fn new() -> (r: Labels)
        ensures
            r@ == Map::<Seq<char>, Seq<char>>::empty(),
    {
        let r = Labels { map: StringHashMap::new() };
        assert(r@ =~= Map::<Seq<char>, Seq<char>>::empty());
        r
    }

    /// Sets a label; a later value replaces an earlier one.
    pub fn insert(&mut self, key: String, value: String)
        ensures
            is_set(old(self)@, key@, value@, final(self)@),
    {
        self.map.insert(key, value);
        assert(self@ =~= old(self)@.insert(key@, value@));
    }

    /// The value of a label.
    pub fn get(&self, key: &str) -> (r: Option<&String>)
        ensures
            match r {
                Some(v) => is_value(self@, key@, Some(v@)),
                None => is_value(self@, key@, None),
            },
    {
        self.map.get(key)
    }
}

/// `Arc::clone` hands out another pointer to the same value.
#[verifier::external_body]
pub(crate) fn share<T>(a: &Arc<T>) -> (r: Arc<T>)
    ensures
        r == *a,
{
    a.clone()
}

/// A label that is set has the value that it was set to, and every other label
/// keeps what it had.
pub proof fn set_label_is_kept(
    before: Map<Seq<char>, Seq<char>>,
    key: Seq<char>,
    value: Seq<char>,
    after: Map<Seq<char>, Seq<char>>,
    other: Seq<char>,
    r: Option<Seq<char>>,
)
    requires
        is_set(before, key, value, after),
        is_value(after, other, r),
    ensures
        other == key ==> r == Some(value),
        other != key ==> is_value(before, other, r),
{
}

/// A label has one value: the one that the labels map it to.
pub proof fn label_has_one_value(
    labels: Map<Seq<char>, Seq<char>>,
    key: Seq<char>,
    r: Option<Seq<char>>,
)
    requires
        is_value(labels, key, r),
    ensures
        r is Some <==> labels.contains_key(key),
        r is Some ==> r->0 == labels[key],
{
}

} // verus!
