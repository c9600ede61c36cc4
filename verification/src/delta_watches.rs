//! The per-stream registry of open delta cache watches, one per type URL,
//! and the teardown path that cancels every registered watch.

use crate::cache::{status_delta_watches, status_watches, SnapshotCache};
use crate::strmap::StrMap;
use crate::watch::WatchId;
use vstd::prelude::*;

verus! {

/// A registered delta watch: its cache id.
pub struct Watch {
    pub id: WatchId,
}

/// Type URL to open delta watch; at most one per type by construction.
pub struct DeltaWatches {
    pub active: StrMap<Watch>,
}

impl DeltaWatches {
    pub fn new() -> (r: Self)
        ensures
            r.active@ == Map::<Seq<char>, Watch>::empty(),
    {
        DeltaWatches { active: StrMap::new() }
    }

    /// Registers a fresh watch for the type.
    pub fn add(&mut self, type_url: &String, watch_id: WatchId)
        ensures
            final(self).active@ == old(self).active@.insert(type_url@, Watch { id: watch_id }),
    {
        self.active.insert(type_url.clone(), Watch { id: watch_id });
    }

    /// Removes and returns the watch registered for the type, if any.
    pub fn remove(&mut self, type_url: &String) -> (r: Option<Watch>)
        ensures
            final(self).active@ == old(self).active@.remove(type_url@),
            match r {
                Some(w) => old(self).active@.contains_key(type_url@) && w == old(
                    self,
                ).active@[type_url@],
                None => !old(self).active@.contains_key(type_url@),
            },
    {
        self.active.remove(type_url)
    }
}

/// The cache indices a delta registry holds for one node, among its first
/// `i` entries.
pub open spec fn prefix_delta_ids(kv: Seq<(String, Watch)>, i: int, n: Seq<char>) -> Set<int> {
    Set::new(
        |k: int|
            exists|x: int|
                0 <= x < i && (#[trigger] kv[x]).1.id.node_id@ == n && kv[x].1.id.index as int
                    == k,
    )
}

/// Cancels every delta watch in the registry: used on stream teardown.
/// Nothing else of the cache changes; cancelling an already fired watch is
/// a no-op.
pub fn cancel_all(active: &DeltaWatches, cache: &mut SnapshotCache)
    ensures
        final(cache).ads == old(cache).ads,
        final(cache).snapshots == old(cache).snapshots,
        final(cache).status@.dom() == old(cache).status@.dom(),
        forall|n: Seq<char>|
            status_watches(final(cache).status@, n) == status_watches(old(cache).status@, n),
        forall|n: Seq<char>|
            old(cache).status@.contains_key(n) ==> final(cache).status@[n].last_request_time == old(
                cache,
            ).status@[n].last_request_time,
        forall|n: Seq<char>|
            status_delta_watches(final(cache).status@, n) == status_delta_watches(
                old(cache).status@,
                n,
            ).remove_keys(
                prefix_delta_ids(active.active.kv_seq(), active.active.kv_seq().len() as int, n),
            ),
{
    let entries = active.active.entries();
    let en = entries.len();
    for i in 0..en
        invariant
            en == entries@.len(),
            entries@ == active.active.kv_seq(),
            cache.ads == old(cache).ads,
            cache.snapshots == old(cache).snapshots,
            cache.status@.dom() == old(cache).status@.dom(),
            forall|n: Seq<char>|
                status_watches(cache.status@, n) == status_watches(old(cache).status@, n),
            forall|n: Seq<char>|
                old(cache).status@.contains_key(n) ==> cache.status@[n].last_request_time == old(
                    cache,
                ).status@[n].last_request_time,
            forall|n: Seq<char>|
                status_delta_watches(cache.status@, n) == status_delta_watches(
                    old(cache).status@,
                    n,
                ).remove_keys(prefix_delta_ids(entries@, i as int, n)),
    {
        let ghost pre = cache.status@;
        cache.cancel_delta_watch(&entries[i].1.id);
        proof {
            let id = entries@[i as int].1.id;
            assert forall|n: Seq<char>|
                status_delta_watches(cache.status@, n) =~= status_delta_watches(
                old(cache).status@,
                n,
            ).remove_keys(prefix_delta_ids(entries@, i + 1, n)) by {
                if n != id.node_id@ {
                    assert(status_delta_watches(cache.status@, n) == status_delta_watches(
                        pre,
                        n,
                    )) by {
                        if pre.contains_key(n) {
                            assert(cache.status@[n] == pre[n]);
                        } else {
                            assert(!cache.status@.dom().contains(n));
                        }
                    }
                }
                assert(status_delta_watches(pre, n) == status_delta_watches(
                    old(cache).status@,
                    n,
                ).remove_keys(prefix_delta_ids(entries@, i as int, n)));
                assert forall|k: int|
                    status_delta_watches(cache.status@, n).dom().contains(k) == (
                status_delta_watches(old(cache).status@, n).dom().contains(k) && !prefix_delta_ids(
                    entries@,
                    i + 1,
                    n,
                ).contains(k)) by {
                    if prefix_delta_ids(entries@, i + 1, n).contains(k) {
                        let x = choose|x: int|
                            0 <= x < i + 1 && (#[trigger] entries@[x]).1.id.node_id@ == n
                                && entries@[x].1.id.index as int == k;
                        if x < i {
                            assert(prefix_delta_ids(entries@, i as int, n).contains(k));
                        } else {
                            assert(n == id.node_id@ && k == id.index as int);
                        }
                    }
                    if !prefix_delta_ids(entries@, i + 1, n).contains(k) {
                        assert(!prefix_delta_ids(entries@, i as int, n).contains(k)) by {
                            if prefix_delta_ids(entries@, i as int, n).contains(k) {
                                let x = choose|x: int|
                                    0 <= x < i && (#[trigger] entries@[x]).1.id.node_id@ == n
                                        && entries@[x].1.id.index as int == k;
                                assert(0 <= x < i + 1);
                            }
                        }
                        assert(!(n == id.node_id@ && k == id.index as int));
                    }
                }
                assert forall|k: int|
                    #[trigger] status_delta_watches(cache.status@, n).dom().contains(k)
                        implies status_delta_watches(cache.status@, n)[k] == status_delta_watches(
                    old(cache).status@,
                    n,
                )[k] by {
                    assert(status_delta_watches(cache.status@, n)[k] == status_delta_watches(
                        pre,
                        n,
                    )[k]);
                }
            }
        }
    }
}

} // verus!
