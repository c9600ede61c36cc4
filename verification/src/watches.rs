//! The per-stream registry of open SotW cache watches, one per type URL,
//! and the teardown path that cancels every registered watch.

use crate::cache::{status_delta_watches, status_watches, SnapshotCache};
use crate::strmap::StrMap;
use crate::watch::WatchId;
use vstd::prelude::*;

verus! {

/// A registered watch: its cache id and, once a response for its type was
/// forwarded, the nonce that response carried.
pub struct Watch {
    pub nonce: Option<i64>,
    pub id: WatchId,
}

/// Type URL to open watch; at most one per type by construction.
pub struct Watches {
    pub active: StrMap<Watch>,
}

impl Watches {
    pub fn new() -> (r: Self)
        ensures
            r.active@ == Map::<Seq<char>, Watch>::empty(),
    {
        Watches { active: StrMap::new() }
    }

    pub fn get(&self, type_url: &String) -> (r: Option<&Watch>)
        ensures
            match r {
                Some(w) => self.active@.contains_key(type_url@) && *w == self.active@[type_url@],
                None => !self.active@.contains_key(type_url@),
            },
    {
        self.active.get(type_url)
    }

    /// Registers a fresh watch for the type, with no nonce yet.
    pub fn add(&mut self, type_url: &String, watch_id: WatchId)
        ensures
            final(self).active@ == old(self).active@.insert(
                type_url@,
                Watch { nonce: None, id: watch_id },
            ),
    {
        self.active.insert(type_url.clone(), Watch { nonce: None, id: watch_id });
    }

    /// Records the nonce of the response just forwarded for this type, if a
    /// watch is registered for it.
    pub fn set_nonce(&mut self, type_url: &String, nonce: i64)
        ensures
            old(self).active@.contains_key(type_url@) ==> final(self).active@ == old(
                self,
            ).active@.insert(
                type_url@,
                Watch { nonce: Some(nonce), id: old(self).active@[type_url@].id },
            ),
            !old(self).active@.contains_key(type_url@) ==> final(self).active@ == old(
                self,
            ).active@,
    {
        match self.active.remove(type_url) {
            Some(w) => {
                self.active.insert(type_url.clone(), Watch { nonce: Some(nonce), id: w.id });
                proof {
                    assert(self.active@ =~= old(self).active@.insert(
                        type_url@,
                        Watch { nonce: Some(nonce), id: old(self).active@[type_url@].id },
                    ));
                }
            },
            None => {
                proof {
                    assert(self.active@ =~= old(self).active@);
                }
            },
        }
    }
}

/// The cache indices a registry holds for one node, among its first `i`
/// entries.
pub open spec fn prefix_watch_ids(kv: Seq<(String, Watch)>, i: int, n: Seq<char>) -> Set<int> {
    Set::new(
        |k: int|
            exists|x: int|
                0 <= x < i && (#[trigger] kv[x]).1.id.node_id@ == n && kv[x].1.id.index as int
                    == k,
    )
}

/// Cancels every watch in the registry: used on stream teardown, after
/// which none of the registered watches is pending in the cache. Nothing
/// else of the cache changes; cancelling an already fired watch is a no-op.
pub fn cancel_all(active: &Watches, cache: &mut SnapshotCache)
    ensures
        final(cache).ads == old(cache).ads,
        final(cache).snapshots == old(cache).snapshots,
        final(cache).status@.dom() == old(cache).status@.dom(),
        forall|n: Seq<char>|
            status_delta_watches(final(cache).status@, n) == status_delta_watches(
                old(cache).status@,
                n,
            ),
        forall|n: Seq<char>|
            old(cache).status@.contains_key(n) ==> final(cache).status@[n].last_request_time == old(
                cache,
            ).status@[n].last_request_time,
        forall|n: Seq<char>|
            status_watches(final(cache).status@, n) == status_watches(
                old(cache).status@,
                n,
            ).remove_keys(
                prefix_watch_ids(active.active.kv_seq(), active.active.kv_seq().len() as int, n),
            ),
{
    let entries = active.active.entries();
    let en = entries.len();
    for i in 0..en
        invariant
            en == entries@.len(),
            entries@ == active.active.kv_seq(),
            cache.ads == old(cache).ads,
            cache.snapshots == old(cache).snapshots,
            cache.status@.dom() == old(cache).status@.dom(),
            forall|n: Seq<char>|
                status_delta_watches(cache.status@, n) == status_delta_watches(
                    old(cache).status@,
                    n,
                ),
            forall|n: Seq<char>|
                old(cache).status@.contains_key(n) ==> cache.status@[n].last_request_time == old(
                    cache,
                ).status@[n].last_request_time,
            forall|n: Seq<char>|
                status_watches(cache.status@, n) == status_watches(
                    old(cache).status@,
                    n,
                ).remove_keys(prefix_watch_ids(entries@, i as int, n)),
    {
        let ghost pre = cache.status@;
        cache.cancel_watch(&entries[i].1.id);
        proof {
            let id = entries@[i as int].1.id;
            assert forall|n: Seq<char>|
                status_watches(cache.status@, n) =~= status_watches(
                old(cache).status@,
                n,
            ).remove_keys(prefix_watch_ids(entries@, i + 1, n)) by {
                if n != id.node_id@ {
                    assert(status_watches(cache.status@, n) == status_watches(pre, n)) by {
                        if pre.contains_key(n) {
                            assert(cache.status@[n] == pre[n]);
                        } else {
                            assert(!cache.status@.dom().contains(n));
                        }
                    }
                }
                assert(status_watches(pre, n) == status_watches(
                    old(cache).status@,
                    n,
                ).remove_keys(prefix_watch_ids(entries@, i as int, n)));
                assert forall|k: int|
                    status_watches(cache.status@, n).dom().contains(k) == (status_watches(
                    old(cache).status@,
                    n,
                ).dom().contains(k) && !prefix_watch_ids(entries@, i + 1, n).contains(k)) by {
                    if prefix_watch_ids(entries@, i + 1, n).contains(k) {
                        let x = choose|x: int|
                            0 <= x < i + 1 && (#[trigger] entries@[x]).1.id.node_id@ == n
                                && entries@[x].1.id.index as int == k;
                        if x < i {
                            assert(prefix_watch_ids(entries@, i as int, n).contains(k));
                        } else {
                            assert(n == id.node_id@ && k == id.index as int);
                        }
                    }
                    if !prefix_watch_ids(entries@, i + 1, n).contains(k) {
                        assert(!prefix_watch_ids(entries@, i as int, n).contains(k)) by {
                            if prefix_watch_ids(entries@, i as int, n).contains(k) {
                                let x = choose|x: int|
                                    0 <= x < i && (#[trigger] entries@[x]).1.id.node_id@ == n
                                        && entries@[x].1.id.index as int == k;
                                assert(0 <= x < i + 1);
                            }
                        }
                        assert(!(n == id.node_id@ && k == id.index as int));
                    }
                }
                assert forall|k: int|
                    #[trigger] status_watches(cache.status@, n).dom().contains(k)
                        implies status_watches(cache.status@, n)[k] == status_watches(
                    old(cache).status@,
                    n,
                )[k] by {
                    assert(status_watches(cache.status@, n)[k] == status_watches(pre, n)[k]);
                }
            }
        }
    }
    proof {
        assert(entries@.len() as int == active.active.kv_seq().len() as int);
    }
}

} // verus!
