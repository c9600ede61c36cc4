//! Watches pending in the cache, and the slab they are stored in.
//!
//! A watch records the exact request it was set for and an opaque sink token
//! the embedder uses to route the response to the right stream. Watches live
//! in a `slab::Slab` per node; the slab is trusted through the contents
//! names `watch_entries` / `delta_watch_entries` and one wrapper per method
//! the cache calls.

use crate::api::{DeltaDiscoveryRequest, DiscoveryRequest};
use crate::stream_handle::DeltaStreamHandle;
use vstd::prelude::*;

verus! {

/// A stable opaque handle sufficient to cancel a watch.
#[derive(Clone, PartialEq, Eq, PartialOrd, Ord, Debug)]
pub struct WatchId {
    pub node_id: String,
    pub index: usize,
}

/// A pending state-of-the-world watch: the request it was set for, and the
/// sink token identifying where its response must go.
pub struct Watch {
    pub req: DiscoveryRequest,
    pub sink: u64,
}

/// A pending delta watch: the request, the sink token, and the client's
/// subscription state at the moment the watch was set.
pub struct DeltaWatch {
    pub req: DeltaDiscoveryRequest,
    pub sink: u64,
    pub stream: DeltaStreamHandle,
}

#[verifier::external_type_specification]
#[verifier::external_body]
#[verifier::reject_recursive_types(T)]
pub struct ExSlab<T>(slab::Slab<T>);

/// What a slab of SotW watches holds: a map from occupied key to value.
pub uninterp spec fn watch_entries(s: slab::Slab<Watch>) -> Map<int, Watch>;

/// What a slab of delta watches holds: a map from occupied key to value.
pub uninterp spec fn delta_watch_entries(s: slab::Slab<DeltaWatch>) -> Map<int, DeltaWatch>;

/// Relies on `slab::Slab::new`: an empty slab.
#[verifier::external_body]
pub(crate) fn watch_slab_new() -> (r: slab::Slab<Watch>)
    ensures
        watch_entries(r).dom() == Set::<int>::empty(),
{
    slab::Slab::new()
}

/// Relies on `slab::Slab::insert`: stores the value in a vacant slot and
/// returns its key.
#[verifier::external_body]
pub(crate) fn watch_slab_insert(s: &mut slab::Slab<Watch>, w: Watch) -> (key: usize)
    ensures
        !watch_entries(*old(s)).dom().contains(key as int),
        watch_entries(*final(s)) == watch_entries(*old(s)).insert(key as int, w),
{
    s.insert(w)
}

/// Relies on `slab::Slab::try_remove`: removes and returns the value at
/// `key` when that slot is occupied, and does nothing otherwise.
#[verifier::external_body]
pub(crate) fn watch_slab_try_remove(s: &mut slab::Slab<Watch>, key: usize) -> (r: Option<Watch>)
    ensures
        match r {
            Some(w) => watch_entries(*old(s)).dom().contains(key as int) && w == watch_entries(
                *old(s),
            )[key as int] && watch_entries(*final(s)) == watch_entries(*old(s)).remove(key as int),
            None => !watch_entries(*old(s)).dom().contains(key as int) && watch_entries(*final(s))
                == watch_entries(*old(s)),
        },
{
    s.try_remove(key)
}

/// Relies on `slab::Slab::get`: the value at `key` when occupied.
#[verifier::external_body]
pub(crate) fn watch_slab_get<'a>(s: &'a slab::Slab<Watch>, key: usize) -> (r: Option<&'a Watch>)
    ensures
        match r {
            Some(w) => watch_entries(*s).dom().contains(key as int) && *w == watch_entries(
                *s,
            )[key as int],
            None => !watch_entries(*s).dom().contains(key as int),
        },
{
    s.get(key)
}

/// Relies on `slab::Slab::iter`: the occupied keys, in increasing order.
#[verifier::external_body]
pub(crate) fn watch_slab_keys(s: &slab::Slab<Watch>) -> (r: Vec<usize>)
    ensures
        forall|i: int|
            0 <= i < r@.len() ==> watch_entries(*s).dom().contains((#[trigger] r@[i]) as int),
        forall|i: int, j: int| 0 <= i < j < r@.len() ==> r@[i] < r@[j],
        forall|k: int|
            watch_entries(*s).dom().contains(k) ==> exists|i: int|
                0 <= i < r@.len() && (#[trigger] r@[i]) as int == k,
{
    s.iter().map(|(k, _)| k).collect()
}

/// Relies on `slab::Slab::new`: an empty slab.
#[verifier::external_body]
pub(crate) fn delta_watch_slab_new() -> (r: slab::Slab<DeltaWatch>)
    ensures
        delta_watch_entries(r).dom() == Set::<int>::empty(),
{
    slab::Slab::new()
}

/// Relies on `slab::Slab::insert`: stores the value in a vacant slot and
/// returns its key.
#[verifier::external_body]
pub(crate) fn delta_watch_slab_insert(s: &mut slab::Slab<DeltaWatch>, w: DeltaWatch) -> (key:
    usize)
    ensures
        !delta_watch_entries(*old(s)).dom().contains(key as int),
        delta_watch_entries(*final(s)) == delta_watch_entries(*old(s)).insert(key as int, w),
{
    s.insert(w)
}

/// Relies on `slab::Slab::try_remove`: removes and returns the value at
/// `key` when that slot is occupied, and does nothing otherwise.
#[verifier::external_body]
pub(crate) fn delta_watch_slab_try_remove(s: &mut slab::Slab<DeltaWatch>, key: usize) -> (r:
    Option<DeltaWatch>)
    ensures
        match r {
            Some(w) => delta_watch_entries(*old(s)).dom().contains(key as int) && w
                == delta_watch_entries(*old(s))[key as int] && delta_watch_entries(*final(s))
                == delta_watch_entries(*old(s)).remove(key as int),
            None => !delta_watch_entries(*old(s)).dom().contains(key as int)
                && delta_watch_entries(*final(s)) == delta_watch_entries(*old(s)),
        },
{
    s.try_remove(key)
}

/// Relies on `slab::Slab::get`: the value at `key` when occupied.
#[verifier::external_body]
pub(crate) fn delta_watch_slab_get<'a>(s: &'a slab::Slab<DeltaWatch>, key: usize) -> (r: Option<
    &'a DeltaWatch,
>)
    ensures
        match r {
            Some(w) => delta_watch_entries(*s).dom().contains(key as int) && *w
                == delta_watch_entries(*s)[key as int],
            None => !delta_watch_entries(*s).dom().contains(key as int),
        },
{
    s.get(key)
}

/// Relies on `slab::Slab::iter`: the occupied keys, in increasing order.
#[verifier::external_body]
pub(crate) fn delta_watch_slab_keys(s: &slab::Slab<DeltaWatch>) -> (r: Vec<usize>)
    ensures
        forall|i: int|
            0 <= i < r@.len() ==> delta_watch_entries(*s).dom().contains((#[trigger] r@[i]) as int),
        forall|i: int, j: int| 0 <= i < j < r@.len() ==> r@[i] < r@[j],
        forall|k: int|
            delta_watch_entries(*s).dom().contains(k) ==> exists|i: int|
                0 <= i < r@.len() && (#[trigger] r@[i]) as int == k,
{
    s.iter().map(|(k, _)| k).collect()
}

} // verus!
