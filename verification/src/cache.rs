//! The snapshot cache: per-node snapshots and pending watches, with the
//! operations a control plane drives it by.
//!
//! Unlike a transport-bound cache, the operations here return the responses
//! to deliver (tagged with each watch's sink token) instead of sending them;
//! the embedding layer routes them to the right stream.

use crate::api::{
    DiscoveryRequest, DiscoveryResponse, DeltaDiscoveryRequest, DeltaDiscoveryResponse, Node,
    SpecAnyPayload, SpecDiscoveryRequest, SpecDiscoveryResponse,
};
use crate::snapshot::{spec_version, version_map_complete, Resource, Resources, Snapshot};
use crate::stream_handle::{DeltaStreamHandle, StreamHandle};
use crate::strmap::{StrMap, StrSet};
use crate::watch::{
    delta_watch_entries, delta_watch_slab_new, watch_entries, watch_slab_new, DeltaWatch, Watch,
    WatchId,
};
use vstd::prelude::*;

verus! {

/// Why a synchronous fetch returned no response.
#[derive(Clone, Copy, PartialEq, Eq, Structural, Debug)]
pub enum FetchError {
    VersionUpToDate,
    NotFound,
}

/// What the cache delivers for a fired SotW watch: the watch's request and
/// the response built for it.
pub type WatchResponse = (DiscoveryRequest, DiscoveryResponse);

/// The per-resource versions a delta response establishes at the client.
pub type NextVersionMap = StrMap<String>;

/// What the cache delivers for a fired delta watch.
pub type DeltaWatchResponse = (DeltaDiscoveryResponse, NextVersionMap);

/// Mutable bookkeeping for one connected node.
pub struct NodeStatus {
    pub last_request_time: u64,
    pub watches: slab::Slab<Watch>,
    pub delta_watches: slab::Slab<DeltaWatch>,
}

impl NodeStatus {
    pub fn new(now: u64) -> (r: Self)
        ensures
            r.last_request_time == now,
            watch_entries(r.watches) == Map::<int, Watch>::empty(),
            delta_watch_entries(r.delta_watches) == Map::<int, DeltaWatch>::empty(),
    {
        let r = NodeStatus {
            last_request_time: now,
            watches: watch_slab_new(),
            delta_watches: delta_watch_slab_new(),
        };
        proof {
            assert(watch_entries(r.watches) =~= Map::<int, Watch>::empty());
            assert(delta_watch_entries(r.delta_watches) =~= Map::<int, DeltaWatch>::empty());
        }
        r
    }
}

/// The node identity a request carries: `node.id`, or empty without a node.
pub open spec fn spec_hash_id(node: Option<Seq<char>>) -> Seq<char> {
    match node {
        Some(id) => id,
        None => Seq::<char>::empty(),
    }
}

pub fn hash_id(node: &Option<Node>) -> (r: String)
    ensures
        r@ == spec_hash_id(
            match node {
                Some(n) => Some(n@),
                None => None,
            },
        ),
{
    match node {
        Some(n) => n.id.clone(),
        None => String::new(),
    }
}

/// The SotW watches a status map holds for a node (empty if unknown).
pub open spec fn status_watches(
    status: Map<Seq<char>, NodeStatus>,
    node_id: Seq<char>,
) -> Map<int, Watch> {
    if status.contains_key(node_id) {
        watch_entries(status[node_id].watches)
    } else {
        Map::<int, Watch>::empty()
    }
}

/// The delta watches a status map holds for a node (empty if unknown).
pub open spec fn status_delta_watches(
    status: Map<Seq<char>, NodeStatus>,
    node_id: Seq<char>,
) -> Map<int, DeltaWatch> {
    if status.contains_key(node_id) {
        delta_watch_entries(status[node_id].delta_watches)
    } else {
        Map::<int, DeltaWatch>::empty()
    }
}

/// The payload of a response with an empty resource-name filter: every item
/// of the bundle, in bundle order.
pub open spec fn all_items_payload(items: Seq<(String, Resource)>) -> Seq<SpecAnyPayload> {
    Seq::new(items.len(), |i: int| items[i].1.spec_into_any())
}

/// The payload of a response with an explicit filter: each requested name
/// found in the bundle, in request order; missing names are omitted.
pub open spec fn named_items_payload(
    names: Seq<Seq<char>>,
    items: Map<Seq<char>, Resource>,
) -> Seq<SpecAnyPayload>
    decreases names.len(),
{
    if names.len() == 0 {
        Seq::empty()
    } else {
        let rest = named_items_payload(names.drop_last(), items);
        if items.contains_key(names.last()) {
            rest.push(items[names.last()].spec_into_any())
        } else {
            rest
        }
    }
}

/// The payload a snapshot yields for a request filter and a type URL.
pub open spec fn response_payload(
    names: Seq<Seq<char>>,
    snap: Snapshot,
    type_url: Seq<char>,
) -> Seq<SpecAnyPayload> {
    if snap.resources@.contains_key(type_url) {
        let rs = snap.resources@[type_url];
        if names.len() == 0 {
            all_items_payload(rs.items.kv_seq())
        } else {
            named_items_payload(names, rs.items@)
        }
    } else {
        Seq::<SpecAnyPayload>::empty()
    }
}

/// A discovery response as the cache builds it for `req` against `snap`,
/// with the payload drawn from the bundle for `type_url`: the nonce is left
/// empty for the stream.
pub open spec fn response_ok(
    rep: SpecDiscoveryResponse,
    req: SpecDiscoveryRequest,
    snap: Snapshot,
    type_url: Seq<char>,
) -> bool {
    rep.type_url == req.type_url && rep.version_info == spec_version(snap, type_url) && rep.nonce
        == Seq::<char>::empty() && rep.control_plane is None && !rep.canary && rep.resources
        == response_payload(req.resource_names, snap, type_url)
}

/// Builds a DiscoveryResponse from a bundle at a version, filtered by the
/// request's resource names (empty filter: all items).
pub fn build_response(
    req: &DiscoveryRequest,
    resources: Option<&Resources>,
    version: &String,
) -> (rep: DiscoveryResponse)
    ensures
        rep@.type_url == req@.type_url,
        rep@.version_info == version@,
        rep@.nonce == Seq::<char>::empty(),
        rep@.control_plane is None,
        !rep@.canary,
        rep@.resources == (match resources {
            Some(rs) => if req@.resource_names.len() == 0 {
                all_items_payload(rs.items.kv_seq())
            } else {
                named_items_payload(req@.resource_names, rs.items@)
            },
            None => Seq::<SpecAnyPayload>::empty(),
        }),
{
    let mut filtered_resources: Vec<crate::api::AnyPayload> = Vec::new();
    match resources {
        Some(rs) => {
            if req.resource_names.is_empty() {
                let items = rs.items.entries();
                let n = items.len();
                for i in 0..n
                    invariant
                        n == items@.len(),
                        items@ == rs.items.kv_seq(),
                        filtered_resources@.len() == i,
                        filtered_resources.deep_view() == all_items_payload(
                            items@.take(i as int),
                        ),
                {
                    let ghost pre = filtered_resources;
                    filtered_resources.push(items[i].1.into_any());
                    proof {
                        assert forall|j: int| 0 <= j < i + 1 implies (
                        #[trigger] filtered_resources.deep_view()[j]) == all_items_payload(
                            items@.take(i + 1),
                        )[j] by {
                            assert(filtered_resources.deep_view()[j]
                                == filtered_resources@[j].deep_view());
                            if j < i {
                                assert(filtered_resources@[j] == pre@[j]);
                                assert(pre.deep_view()[j] == pre@[j].deep_view());
                                assert(pre.deep_view()[j] == all_items_payload(
                                    items@.take(i as int),
                                )[j]);
                            }
                        }
                        assert(filtered_resources.deep_view() =~= all_items_payload(
                            items@.take(i + 1),
                        ));
                    }
                }
                proof {
                    assert(items@.take(n as int) =~= items@);
                }
            } else {
                let n = req.resource_names.len();
                for i in 0..n
                    invariant
                        n == req.resource_names@.len(),
                        filtered_resources.deep_view() == named_items_payload(
                            req@.resource_names.take(i as int),
                            rs.items@,
                        ),
                {
                    proof {
                        assert(req@.resource_names.take(i + 1).drop_last()
                            =~= req@.resource_names.take(i as int));
                        assert(req@.resource_names[i as int] == req.resource_names@[i as int]@);
                    }
                    let ghost pre = filtered_resources;
                    match rs.items.get(&req.resource_names[i]) {
                        Some(resource) => {
                            filtered_resources.push(resource.into_any());
                        },
                        None => {},
                    }
                    proof {
                        assert forall|j: int|
                            0 <= j < filtered_resources@.len() implies (
                        #[trigger] filtered_resources.deep_view()[j]) == named_items_payload(
                            req@.resource_names.take(i + 1),
                            rs.items@,
                        )[j] by {
                            assert(filtered_resources.deep_view()[j]
                                == filtered_resources@[j].deep_view());
                            if j < pre@.len() {
                                assert(filtered_resources@[j] == pre@[j]);
                                assert(pre.deep_view()[j] == pre@[j].deep_view());
                            }
                        }
                        assert(filtered_resources.deep_view() =~= named_items_payload(
                            req@.resource_names.take(i + 1),
                            rs.items@,
                        ));
                    }
                }
                proof {
                    assert(req@.resource_names.take(n as int) =~= req@.resource_names);
                }
            }
        },
        None => {},
    }
    DiscoveryResponse {
        type_url: req.type_url.clone(),
        nonce: String::new(),
        version_info: version.clone(),
        resources: filtered_resources,
        control_plane: None,
        canary: false,
    }
}

/// Whether the client's filter names something new: a requested name that is
/// in the bundle but not yet among the stream's known names.
pub open spec fn spec_requesting_new(
    names: Seq<Seq<char>>,
    known: Set<Seq<char>>,
    items: Map<Seq<char>, Resource>,
) -> bool {
    exists|i: int|
        0 <= i < names.len() && !known.contains(#[trigger] names[i]) && items.contains_key(names[i])
}

/// Whether `req` asks for resources the stream has not acknowledged yet.
/// Without a bundle, or before any names are known, nothing counts as new.
pub fn is_requesting_new_resources(
    req: &DiscoveryRequest,
    resources: Option<&Resources>,
    type_known_resource_names: Option<&StrSet>,
) -> (r: bool)
    ensures
        resources is Some && type_known_resource_names is Some ==> r == spec_requesting_new(
            req@.resource_names,
            type_known_resource_names->0@,
            resources->0.items@,
        ),
        resources is None || type_known_resource_names is None ==> r == false,
{
    let rs = match resources {
        Some(rs) => rs,
        None => {
            return false;
        },
    };
    let known = match type_known_resource_names {
        Some(known) => known,
        None => {
            return false;
        },
    };
            let n = req.resource_names.len();
            for i in 0..n
                invariant
                    n == req.resource_names@.len(),
                    resources == Some(rs),
                    type_known_resource_names == Some(known),
                    forall|j: int|
                        0 <= j < i ==> !(!known@.contains(#[trigger] req@.resource_names[j])
                            && rs.items@.contains_key(req@.resource_names[j])),
            {
                proof {
                    assert(req@.resource_names[i as int] == req.resource_names@[i as int]@);
                }
                if !known.contains(&req.resource_names[i]) && rs.items.contains_key(
                    &req.resource_names[i],
                ) {
                    proof {
                        assert(req@.resource_names.len() == req.resource_names@.len());
                        assert(!known@.contains(req@.resource_names[i as int])
                            && rs.items@.contains_key(req@.resource_names[i as int]));
                        assert(spec_requesting_new(req@.resource_names, known@, rs.items@));
                    }
                    return true;
                }
            }
    proof {
        assert(req@.resource_names.len() == req.resource_names@.len());
        assert(!spec_requesting_new(req@.resource_names, known@, rs.items@));
    }
    false
}

/// Whether the bundle is consistent with the request's filter under ADS:
/// every item of the bundle is among the requested names (trivially so for
/// an empty filter or a missing bundle).
pub open spec fn spec_ads_consistent(
    names: Seq<Seq<char>>,
    items: Map<Seq<char>, Resource>,
) -> bool {
    forall|k: Seq<char>| items.contains_key(k) ==> crate::api::names_contain(names, k)
}

pub fn check_ads_consistency(req: &DiscoveryRequest, resources: Option<&Resources>) -> (r: bool)
    ensures
        r == (req@.resource_names.len() == 0 || resources is None || spec_ads_consistent(
            req@.resource_names,
            resources->0.items@,
        )),
{
    if req.resource_names.is_empty() {
        proof {
            assert(req@.resource_names.len() == req.resource_names@.len());
        }
        return true;
    }
    proof {
        assert(req@.resource_names.len() == req.resource_names@.len());
    }
    match resources {
        Some(rs) => {
            let items = rs.items.entries();
            let n = items.len();
            proof {
                use_type_invariant(&rs.items);
                rs.items.lemma_kv();
            }
            for i in 0..n
                invariant
                    n == items@.len(),
                    items@ == rs.items.kv_seq(),
                    resources == Some(rs),
                    req@.resource_names.len() != 0,
                    forall|j: int|
                        0 <= j < items@.len() ==> rs.items@.contains_key(
                            (#[trigger] items@[j]).0@,
                        ),
                    forall|j: int|
                        0 <= j < i ==> crate::api::names_contain(
                            req@.resource_names,
                            (#[trigger] items@[j]).0@,
                        ),
            {
                if !crate::api::names_contain_exec(&req.resource_names, &items[i].0) {
                    proof {
                        assert(req@.resource_names == req.resource_names.deep_view());
                        assert(req@.resource_names.len() == req.resource_names@.len());
                        assert(rs.items@.contains_key(items@[i as int].0@));
                        assert(!spec_ads_consistent(req@.resource_names, rs.items@));
                    }
                    return false;
                }
            }
            proof {
                use_type_invariant(&rs.items);
                rs.items.lemma_kv();
                assert forall|k: Seq<char>| rs.items@.contains_key(k) implies
                    crate::api::names_contain(req@.resource_names, k) by {
                    let j = choose|j: int|
                        0 <= j < rs.items.kv_seq().len() && rs.items.kv_seq()[j].0@ == k;
                    assert(crate::api::names_contain(req@.resource_names, items@[j].0@));
                }
                assert(spec_ads_consistent(req@.resource_names, rs.items@));
            }
            true
        },
        None => true,
    }
}

/// Whether the ADS consistency gate blocks an immediate response: only with
/// `ads` on, a non-empty filter, and a bundle naming something outside it.
pub open spec fn ads_blocks(
    ads: bool,
    names: Seq<Seq<char>>,
    snap: Snapshot,
    type_url: Seq<char>,
) -> bool {
    ads && names.len() > 0 && snap.resources@.contains_key(type_url) && !spec_ads_consistent(
        names,
        snap.resources@[type_url].items@,
    )
}

/// Whether a stream handle makes `req` a request for new resources against
/// `snap`: there must be a bundle and a recorded known-name set.
pub open spec fn spec_requesting_new_h(
    handle: StreamHandle,
    req: SpecDiscoveryRequest,
    snap: Snapshot,
) -> bool {
    snap.resources@.contains_key(req.type_url) && handle.known_resource_names@.contains_key(
        req.type_url,
    ) && spec_requesting_new(
        req.resource_names,
        handle.known_resource_names@[req.type_url]@,
        snap.resources@[req.type_url].items@,
    )
}

/// The cache's decision for a request against an existing snapshot: respond
/// now (true) or set a watch (false). A request for new resources is
/// answered unless the ADS gate blocks it; a request at the current version
/// waits; an outdated one is answered unless the ADS gate blocks it.
pub open spec fn responds_now(
    ads: bool,
    snap: Snapshot,
    req: SpecDiscoveryRequest,
    handle: StreamHandle,
) -> bool {
    if spec_requesting_new_h(handle, req, snap) {
        !ads_blocks(ads, req.resource_names, snap, req.type_url)
    } else if req.version_info == spec_version(snap, req.type_url) {
        false
    } else {
        !ads_blocks(ads, req.resource_names, snap, req.type_url)
    }
}

/// The central store: node id to latest snapshot, node id to status, and
/// the ADS consistency flag.
pub struct SnapshotCache {
    pub status: StrMap<NodeStatus>,
    pub snapshots: StrMap<Snapshot>,
    pub ads: bool,
}

impl SnapshotCache {
    /// Every stored snapshot has its version map built and consistent.
    pub open spec fn inv(&self) -> bool {
        forall|n: Seq<char>|
            self.snapshots@.contains_key(n) ==> version_map_complete(#[trigger] self.snapshots@[n])
    }

    pub fn new(ads: bool) -> (r: Self)
        ensures
            r.inv(),
            r.ads == ads,
            r.status@ == Map::<Seq<char>, NodeStatus>::empty(),
            r.snapshots@ == Map::<Seq<char>, Snapshot>::empty(),
    {
        SnapshotCache { status: StrMap::new(), snapshots: StrMap::new(), ads }
    }

    /// Refreshes the node's last-request time, creating its status if new;
    /// its watches are untouched.
    fn update_node_status(&mut self, node_id: &String, now: u64)
        ensures
            final(self).ads == old(self).ads,
            final(self).snapshots == old(self).snapshots,
            final(self).status@.dom() == old(self).status@.dom().insert(node_id@),
            final(self).status@[node_id@].last_request_time == now,
            watch_entries(final(self).status@[node_id@].watches) == status_watches(
                old(self).status@,
                node_id@,
            ),
            delta_watch_entries(final(self).status@[node_id@].delta_watches)
                == status_delta_watches(old(self).status@, node_id@),
            forall|n: Seq<char>|
                n != node_id@ && old(self).status@.contains_key(n) ==> final(self).status@[n]
                    == old(self).status@[n],
    {
        let status = match self.status.remove(node_id) {
            Some(st) => NodeStatus { last_request_time: now, ..st },
            None => NodeStatus::new(now),
        };
        self.status.insert(node_id.clone(), status);
        proof {
            assert(self.status@.dom() =~= old(self).status@.dom().insert(node_id@));
        }
    }

    /// Stores a SotW watch for the node and returns its id.
    fn set_watch(&mut self, node_id: &String, req: &DiscoveryRequest, sink: u64) -> (id: WatchId)
        requires
            old(self).status@.contains_key(node_id@),
        ensures
            final(self).ads == old(self).ads,
            final(self).snapshots == old(self).snapshots,
            final(self).status@.dom() == old(self).status@.dom(),
            forall|n: Seq<char>|
                n != node_id@ && old(self).status@.contains_key(n) ==> final(self).status@[n]
                    == old(self).status@[n],
            final(self).status@[node_id@].last_request_time == old(self).status@[node_id@].last_request_time,
            delta_watch_entries(final(self).status@[node_id@].delta_watches)
                == delta_watch_entries(old(self).status@[node_id@].delta_watches),
            id.node_id@ == node_id@,
            !watch_entries(old(self).status@[node_id@].watches).dom().contains(id.index as int),
            watch_entries(final(self).status@[node_id@].watches) == watch_entries(
                old(self).status@[node_id@].watches,
            ).insert(
                id.index as int,
                watch_entries(final(self).status@[node_id@].watches)[id.index as int],
            ),
            watch_entries(final(self).status@[node_id@].watches)[id.index as int].req@ == req@,
            watch_entries(final(self).status@[node_id@].watches)[id.index as int].sink == sink,
    {
        let mut st = match self.status.remove(node_id) {
            Some(st) => st,
            None => unreached(),
        };
        let watch = Watch { req: req.duplicate(), sink };
        let index = crate::watch::watch_slab_insert(&mut st.watches, watch);
        self.status.insert(node_id.clone(), st);
        proof {
            assert(self.status@.dom() =~= old(self).status@.dom());
        }
        WatchId { node_id: node_id.clone(), index }
    }

    /// Stores a delta watch for the node and returns its id.
    fn set_delta_watch(
        &mut self,
        node_id: &String,
        req: &DeltaDiscoveryRequest,
        sink: u64,
        stream: &DeltaStreamHandle,
    ) -> (id: WatchId)
        requires
            old(self).status@.contains_key(node_id@),
        ensures
            final(self).ads == old(self).ads,
            final(self).snapshots == old(self).snapshots,
            final(self).status@.dom() == old(self).status@.dom(),
            forall|n: Seq<char>|
                n != node_id@ && old(self).status@.contains_key(n) ==> final(self).status@[n]
                    == old(self).status@[n],
            final(self).status@[node_id@].last_request_time == old(self).status@[node_id@].last_request_time,
            watch_entries(final(self).status@[node_id@].watches) == watch_entries(
                old(self).status@[node_id@].watches,
            ),
            id.node_id@ == node_id@,
            !delta_watch_entries(old(self).status@[node_id@].delta_watches).dom().contains(
                id.index as int,
            ),
            delta_watch_entries(final(self).status@[node_id@].delta_watches)
                == delta_watch_entries(old(self).status@[node_id@].delta_watches).insert(
                id.index as int,
                delta_watch_entries(final(self).status@[node_id@].delta_watches)[id.index as int],
            ),
            delta_watch_entries(final(self).status@[node_id@].delta_watches)[id.index as int].req@
                == req@,
            delta_watch_entries(final(self).status@[node_id@].delta_watches)[id.index as int].sink
                == sink,
            delta_watch_entries(final(self).status@[node_id@].delta_watches)[id.index as int].stream@
                == stream@,
            crate::delta::handle_like(
                delta_watch_entries(
                    final(self).status@[node_id@].delta_watches,
                )[id.index as int].stream,
                *stream,
            ),
    {
        let mut st = match self.status.remove(node_id) {
            Some(st) => st,
            None => unreached(),
        };
        let watch = DeltaWatch { req: req.duplicate(), sink, stream: stream.duplicate() };
        let index = crate::watch::delta_watch_slab_insert(&mut st.delta_watches, watch);
        self.status.insert(node_id.clone(), st);
        proof {
            assert(self.status@.dom() =~= old(self).status@.dom());
        }
        WatchId { node_id: node_id.clone(), index }
    }

    /// Deletes a watch previously created with `create_watch`; a missing
    /// entry (already fired or cancelled) is silently ignored.
    pub fn cancel_watch(&mut self, watch_id: &WatchId)
        ensures
            final(self).ads == old(self).ads,
            final(self).snapshots == old(self).snapshots,
            final(self).status@.dom() == old(self).status@.dom(),
            forall|n: Seq<char>|
                n != watch_id.node_id@ && old(self).status@.contains_key(n) ==> final(self).status@[n] == old(self).status@[n],
            status_watches(final(self).status@, watch_id.node_id@) == status_watches(
                old(self).status@,
                watch_id.node_id@,
            ).remove(watch_id.index as int),
            status_delta_watches(final(self).status@, watch_id.node_id@) == status_delta_watches(
                old(self).status@,
                watch_id.node_id@,
            ),
            old(self).status@.contains_key(watch_id.node_id@) ==> final(self).status@[watch_id.node_id@].last_request_time == old(self).status@[watch_id.node_id@].last_request_time,
    {
        match self.status.remove(&watch_id.node_id) {
            Some(mut st) => {
                crate::watch::watch_slab_try_remove(&mut st.watches, watch_id.index);
                self.status.insert(watch_id.node_id.clone(), st);
                proof {
                    assert(self.status@.dom() =~= old(self).status@.dom());
                    assert(watch_entries(st.watches) =~= status_watches(
                        old(self).status@,
                        watch_id.node_id@,
                    ).remove(watch_id.index as int));
                }
            },
            None => {
                proof {
                    assert(status_watches(self.status@, watch_id.node_id@) =~= status_watches(
                        old(self).status@,
                        watch_id.node_id@,
                    ).remove(watch_id.index as int));
                }
            },
        }
    }

    /// Deletes a watch previously created with `create_delta_watch`; a
    /// missing entry is silently ignored.
    pub fn cancel_delta_watch(&mut self, watch_id: &WatchId)
        ensures
            final(self).ads == old(self).ads,
            final(self).snapshots == old(self).snapshots,
            final(self).status@.dom() == old(self).status@.dom(),
            forall|n: Seq<char>|
                n != watch_id.node_id@ && old(self).status@.contains_key(n) ==> final(self).status@[n] == old(self).status@[n],
            status_delta_watches(final(self).status@, watch_id.node_id@) == status_delta_watches(
                old(self).status@,
                watch_id.node_id@,
            ).remove(watch_id.index as int),
            status_watches(final(self).status@, watch_id.node_id@) == status_watches(
                old(self).status@,
                watch_id.node_id@,
            ),
            old(self).status@.contains_key(watch_id.node_id@) ==> final(self).status@[watch_id.node_id@].last_request_time == old(self).status@[watch_id.node_id@].last_request_time,
    {
        match self.status.remove(&watch_id.node_id) {
            Some(mut st) => {
                crate::watch::delta_watch_slab_try_remove(&mut st.delta_watches, watch_id.index);
                self.status.insert(watch_id.node_id.clone(), st);
                proof {
                    assert(self.status@.dom() =~= old(self).status@.dom());
                    assert(delta_watch_entries(st.delta_watches) =~= status_delta_watches(
                        old(self).status@,
                        watch_id.node_id@,
                    ).remove(watch_id.index as int));
                }
            },
            None => {
                proof {
                    assert(status_delta_watches(self.status@, watch_id.node_id@)
                        =~= status_delta_watches(old(self).status@, watch_id.node_id@).remove(
                        watch_id.index as int,
                    ));
                }
            },
        }
    }

    /// Synchronous read: no snapshot for the node is `NotFound`; a matching
    /// version is `VersionUpToDate`; otherwise the response, built from the
    /// bundle for `type_url`.
    pub fn fetch(&self, req: &DiscoveryRequest, type_url: &String) -> (r: Result<
        DiscoveryResponse,
        FetchError,
    >)
        ensures
            ({
                let node_id = spec_hash_id(req@.node);
                match r {
                    Err(e) => (e == FetchError::NotFound && !self.snapshots@.contains_key(node_id))
                        || (e == FetchError::VersionUpToDate && self.snapshots@.contains_key(
                        node_id,
                    ) && req@.version_info == spec_version(self.snapshots@[node_id], type_url@)),
                    Ok(rep) => self.snapshots@.contains_key(node_id) && req@.version_info
                        != spec_version(self.snapshots@[node_id], type_url@) && rep@.type_url
                        == req@.type_url && rep@.version_info == spec_version(
                        self.snapshots@[node_id],
                        type_url@,
                    ) && rep@.nonce == Seq::<char>::empty() && rep@.resources == response_payload(
                        req@.resource_names,
                        self.snapshots@[node_id],
                        type_url@,
                    ) && rep@.control_plane is None && !rep@.canary,
                }
            }),
    {
        let node_id = hash_id(&req.node);
        let snapshot = match self.snapshots.get(&node_id) {
            Some(s) => s,
            None => {
                return Err(FetchError::NotFound);
            },
        };
        let version = snapshot.version(type_url);
        if req.version_info == version {
            return Err(FetchError::VersionUpToDate);
        }
        let resources = snapshot.resources(type_url);
        Ok(build_response(req, resources, &version))
    }

    /// Every known node with its last-request time, in storage order.
    pub fn node_status(&self) -> (r: Vec<(String, u64)>)
        ensures
            r@.len() == self.status.kv_seq().len(),
            forall|i: int|
                0 <= i < r@.len() ==> (#[trigger] r@[i]).0@ == self.status.kv_seq()[i].0@
                    && r@[i].1 == self.status.kv_seq()[i].1.last_request_time,
    {
        let entries = self.status.entries();
        let n = entries.len();
        let mut r: Vec<(String, u64)> = Vec::new();
        for i in 0..n
            invariant
                n == entries@.len(),
                entries@ == self.status.kv_seq(),
                r@.len() == i,
                forall|j: int|
                    0 <= j < i ==> (#[trigger] r@[j]).0@ == entries@[j].0@ && r@[j].1
                        == entries@[j].1.last_request_time,
        {
            r.push((entries[i].0.clone(), entries[i].1.last_request_time));
        }
        r
    }
}

/// What `create_watch` did: answered at once, or set a watch to cancel or
/// await.
pub enum CreateWatchOutcome {
    Respond(WatchResponse),
    WatchSet(WatchId),
}

impl SnapshotCache {
    /// Handles a SotW request: refreshes the node's status, then either
    /// responds immediately (the request names new resources, or its version
    /// is stale, and the ADS gate does not block) or stores a watch for a
    /// future snapshot.
    pub fn create_watch(
        &mut self,
        req: &DiscoveryRequest,
        sink: u64,
        stream: &StreamHandle,
        now: u64,
    ) -> (r: CreateWatchOutcome)
        requires
            old(self).inv(),
        ensures
            final(self).inv(),
            final(self).ads == old(self).ads,
            final(self).snapshots == old(self).snapshots,
            final(self).status@.dom() == old(self).status@.dom().insert(spec_hash_id(req@.node)),
            final(self).status@[spec_hash_id(req@.node)].last_request_time == now,
            forall|n: Seq<char>|
                n != spec_hash_id(req@.node) && old(self).status@.contains_key(n) ==> final(self).status@[n] == old(self).status@[n],
            status_delta_watches(final(self).status@, spec_hash_id(req@.node))
                == status_delta_watches(old(self).status@, spec_hash_id(req@.node)),
            ({
                let node_id = spec_hash_id(req@.node);
                let had = old(self).snapshots@.contains_key(node_id);
                match r {
                    CreateWatchOutcome::Respond(resp) => had && responds_now(
                        old(self).ads,
                        old(self).snapshots@[node_id],
                        req@,
                        *stream,
                    ) && resp.0@ == req@ && response_ok(
                        resp.1@,
                        req@,
                        old(self).snapshots@[node_id],
                        req@.type_url,
                    ) && status_watches(final(self).status@, node_id) == status_watches(
                        old(self).status@,
                        node_id,
                    ),
                    CreateWatchOutcome::WatchSet(id) => (!had || !responds_now(
                        old(self).ads,
                        old(self).snapshots@[node_id],
                        req@,
                        *stream,
                    )) && id.node_id@ == node_id && !status_watches(
                        old(self).status@,
                        node_id,
                    ).dom().contains(id.index as int) && status_watches(final(self).status@, node_id)
                        == status_watches(old(self).status@, node_id).insert(
                        id.index as int,
                        status_watches(final(self).status@, node_id)[id.index as int],
                    ) && status_watches(final(self).status@, node_id)[id.index as int].req@ == req@
                        && status_watches(final(self).status@, node_id)[id.index as int].sink
                        == sink,
                }
            }),
    {
        let node_id = hash_id(&req.node);
        self.update_node_status(&node_id, now);
        let respond: Option<DiscoveryResponse> = match self.snapshots.get(&node_id) {
            Some(snapshot) => {
                let resources = snapshot.resources(&req.type_url);
                let version = snapshot.version(&req.type_url);
                let known = stream.known_resource_names(&req.type_url);
                if is_requesting_new_resources(req, resources, known) {
                    if self.ads && !check_ads_consistency(req, resources) {
                        None
                    } else {
                        Some(build_response(req, resources, &version))
                    }
                } else if req.version_info == version {
                    None
                } else {
                    if self.ads && !check_ads_consistency(req, resources) {
                        None
                    } else {
                        Some(build_response(req, resources, &version))
                    }
                }
            },
            None => None,
        };
        match respond {
            Some(rep) => CreateWatchOutcome::Respond((req.duplicate(), rep)),
            None => CreateWatchOutcome::WatchSet(self.set_watch(&node_id, req, sink)),
        }
    }
}

/// What `create_delta_watch` did: answered at once, or set a watch.
pub enum CreateDeltaWatchOutcome {
    Respond(DeltaWatchResponse),
    WatchSet(WatchId),
}

/// Computes the delta for `req` and hands it back when anything must be
/// said: resources to send, removals to announce, or a first wildcard
/// exchange. Returns nothing when the client is current.
pub fn try_respond_delta(
    req: &DeltaDiscoveryRequest,
    stream: &DeltaStreamHandle,
    snapshot: &mut Snapshot,
) -> (r: Option<DeltaWatchResponse>)
    requires
        old(snapshot).resources@.contains_key(req@.type_url),
        old(snapshot).version_map is None || version_map_complete(*old(snapshot)),
    ensures
        final(snapshot).resources == old(snapshot).resources,
        version_map_complete(*final(snapshot)),
        old(snapshot).version_map is Some ==> *final(snapshot) == *old(snapshot),
        r is Some <==> crate::delta::delta_sends(
            *stream,
            old(snapshot).resources@[req@.type_url].items,
        ),
        match r {
            Some(resp) => crate::delta::delta_delivery_ok(
                resp.0,
                resp.1,
                req@.type_url,
                old(snapshot).resources@[req@.type_url].items,
                *stream,
            ),
            None => true,
        },
{
    let delta = crate::delta::DeltaResponse::new(req, stream, snapshot);
    let wildcard_first = stream.is_wildcard() && stream.is_first();
    if !delta.filtered.is_empty() || !delta.to_remove.is_empty() || wildcard_first {
        let rep = delta.to_discovery(&req.type_url);
        proof {
            let items = old(snapshot).resources@[req@.type_url].items;
            if stream@.wildcard {
                assert(rep@.resources =~= crate::delta::spec_delta_resources(
                    crate::delta::wild_filtered(items.kv_seq(), stream@.versions),
                ));
            } else {
                assert(rep@.resources =~= crate::delta::spec_delta_resources(
                    crate::delta::sub_filtered(
                        stream.subscribed_resource_names.elem_seq(),
                        items@,
                        stream@.versions,
                    ),
                ));
            }
        }
        Some((rep, delta.next_version_map))
    } else {
        None
    }
}

impl SnapshotCache {
    /// Handles a delta request: refreshes the node's status, answers at
    /// once when the delta says anything, and stores a delta watch
    /// otherwise (or when the node has no snapshot yet).
    pub fn create_delta_watch(
        &mut self,
        req: &DeltaDiscoveryRequest,
        sink: u64,
        stream: &DeltaStreamHandle,
        now: u64,
    ) -> (r: CreateDeltaWatchOutcome)
        requires
            old(self).inv(),
            old(self).snapshots@.contains_key(spec_hash_id(req@.node)) ==> old(self).snapshots@[spec_hash_id(req@.node)].resources@.contains_key(req@.type_url),
        ensures
            final(self).inv(),
            final(self).ads == old(self).ads,
            final(self).snapshots@ == old(self).snapshots@,
            final(self).status@.dom() == old(self).status@.dom().insert(spec_hash_id(req@.node)),
            final(self).status@[spec_hash_id(req@.node)].last_request_time == now,
            forall|n: Seq<char>|
                n != spec_hash_id(req@.node) && old(self).status@.contains_key(n) ==> final(self).status@[n] == old(self).status@[n],
            status_watches(final(self).status@, spec_hash_id(req@.node)) == status_watches(
                old(self).status@,
                spec_hash_id(req@.node),
            ),
            ({
                let node_id = spec_hash_id(req@.node);
                let had = old(self).snapshots@.contains_key(node_id);
                match r {
                    CreateDeltaWatchOutcome::Respond(resp) => had && crate::delta::delta_sends(
                        *stream,
                        old(self).snapshots@[node_id].resources@[req@.type_url].items,
                    ) && crate::delta::delta_delivery_ok(
                        resp.0,
                        resp.1,
                        req@.type_url,
                        old(self).snapshots@[node_id].resources@[req@.type_url].items,
                        *stream,
                    ) && status_delta_watches(final(self).status@, node_id)
                        == status_delta_watches(old(self).status@, node_id),
                    CreateDeltaWatchOutcome::WatchSet(id) => (!had || !crate::delta::delta_sends(
                        *stream,
                        old(self).snapshots@[node_id].resources@[req@.type_url].items,
                    )) && id.node_id@ == node_id && !status_delta_watches(
                        old(self).status@,
                        node_id,
                    ).dom().contains(id.index as int) && status_delta_watches(
                        final(self).status@,
                        node_id,
                    ) == status_delta_watches(old(self).status@, node_id).insert(
                        id.index as int,
                        status_delta_watches(final(self).status@, node_id)[id.index as int],
                    ) && status_delta_watches(final(self).status@, node_id)[id.index as int].req@
                        == req@ && status_delta_watches(
                        final(self).status@,
                        node_id,
                    )[id.index as int].sink == sink && status_delta_watches(
                        final(self).status@,
                        node_id,
                    )[id.index as int].stream@ == stream@ && crate::delta::handle_like(
                        status_delta_watches(final(self).status@, node_id)[id.index as int].stream,
                        *stream,
                    ),
                }
            }),
    {
        let node_id = hash_id(&req.node);
        self.update_node_status(&node_id, now);
        let responded: Option<DeltaWatchResponse> = match self.snapshots.remove(&node_id) {
            Some(mut snapshot) => {
                let out = try_respond_delta(req, stream, &mut snapshot);
                self.snapshots.insert(node_id.clone(), snapshot);
                proof {
                    assert(self.snapshots@ =~= old(self).snapshots@);
                }
                out
            },
            None => None,
        };
        match responded {
            Some(resp) => CreateDeltaWatchOutcome::Respond(resp),
            None => CreateDeltaWatchOutcome::WatchSet(
                self.set_delta_watch(&node_id, req, sink, stream),
            ),
        }
    }
}

/// A pending SotW watch fires when the new snapshot's version for its type
/// differs from the version the request acknowledged.
pub open spec fn sotw_fires(w: Watch, snap: Snapshot) -> bool {
    spec_version(snap, w.req@.type_url) != w.req@.version_info
}

/// A pending delta watch fires when the delta against the new snapshot says
/// anything for the state the watch was set with.
pub open spec fn delta_fires(w: DeltaWatch, snap: Snapshot) -> bool {
    crate::delta::delta_sends(w.stream, snap.resources@[w.req@.type_url].items)
}

/// The watches left pending after a snapshot lands: those that do not fire.
pub open spec fn surviving_watches(m: Map<int, Watch>, snap: Snapshot) -> Map<int, Watch> {
    Map::new(|k: int| m.dom().contains(k) && !sotw_fires(m[k], snap), |k: int| m[k])
}

/// The delta watches left pending after a snapshot lands.
pub open spec fn surviving_delta_watches(
    m: Map<int, DeltaWatch>,
    snap: Snapshot,
) -> Map<int, DeltaWatch> {
    Map::new(|k: int| m.dom().contains(k) && !delta_fires(m[k], snap), |k: int| m[k])
}

/// Whether `k` is among the first `i` keys of `td`.
pub open spec fn key_in_prefix(td: Seq<usize>, i: int, k: int) -> bool {
    exists|x: int| 0 <= x < i && (#[trigger] td[x]) as int == k
}

/// A SotW watch the new snapshot fired: its slab index, its sink token, and
/// the response delivered for it.
pub struct FiredWatch {
    pub index: usize,
    pub sink: u64,
    pub response: WatchResponse,
}

/// A delta watch the new snapshot fired.
pub struct FiredDeltaWatch {
    pub index: usize,
    pub sink: u64,
    pub response: DeltaWatchResponse,
}

/// Everything one `set_snapshot` call delivered, for the embedder to route.
pub struct FiredResponses {
    pub responses: Vec<FiredWatch>,
    pub delta_responses: Vec<FiredDeltaWatch>,
}

impl SnapshotCache {
    /// Installs `snapshot` for `node`: every pending SotW watch whose
    /// version now differs is fired with a response from the new snapshot
    /// and removed; every pending delta watch whose delta says anything is
    /// fired and removed; the snapshot (with its version map built) replaces
    /// the previous one. Each fired watch is delivered exactly once, in
    /// increasing index order.
    pub fn set_snapshot(&mut self, node: &String, snapshot: Snapshot) -> (fired: FiredResponses)
        requires
            old(self).inv(),
            snapshot.version_map is None || version_map_complete(snapshot),
            forall|k: int|
                status_delta_watches(old(self).status@, node@).dom().contains(k)
                    ==> snapshot.resources@.contains_key(
                    (#[trigger] status_delta_watches(old(self).status@, node@)[k]).req@.type_url,
                ),
        ensures
            final(self).inv(),
            final(self).ads == old(self).ads,
            final(self).snapshots@.dom() == old(self).snapshots@.dom().insert(node@),
            final(self).snapshots@[node@].resources == snapshot.resources,
            version_map_complete(final(self).snapshots@[node@]),
            forall|n: Seq<char>|
                n != node@ && old(self).snapshots@.contains_key(n) ==> final(self).snapshots@[n]
                    == old(self).snapshots@[n],
            final(self).status@.dom() == old(self).status@.dom(),
            forall|n: Seq<char>|
                n != node@ && old(self).status@.contains_key(n) ==> final(self).status@[n] == old(
                    self,
                ).status@[n],
            old(self).status@.contains_key(node@) ==> final(self).status@[node@].last_request_time
                == old(self).status@[node@].last_request_time,
            status_watches(final(self).status@, node@) == surviving_watches(
                status_watches(old(self).status@, node@),
                snapshot,
            ),
            status_delta_watches(final(self).status@, node@) == surviving_delta_watches(
                status_delta_watches(old(self).status@, node@),
                snapshot,
            ),
            forall|i: int|
                0 <= i < fired.responses@.len() ==> {
                    let fw = #[trigger] fired.responses@[i];
                    let ow = status_watches(old(self).status@, node@);
                    &&& ow.dom().contains(fw.index as int)
                    &&& sotw_fires(ow[fw.index as int], snapshot)
                    &&& fw.sink == ow[fw.index as int].sink
                    &&& fw.response.0@ == ow[fw.index as int].req@
                    &&& response_ok(
                        fw.response.1@,
                        ow[fw.index as int].req@,
                        snapshot,
                        ow[fw.index as int].req@.type_url,
                    )
                },
            forall|i: int, j: int|
                0 <= i < j < fired.responses@.len() ==> fired.responses@[i].index
                    < fired.responses@[j].index,
            forall|k: int|
                status_watches(old(self).status@, node@).dom().contains(k) && sotw_fires(
                    status_watches(old(self).status@, node@)[k],
                    snapshot,
                ) ==> exists|i: int|
                    0 <= i < fired.responses@.len() && (#[trigger] fired.responses@[i]).index as int
                        == k,
            forall|i: int|
                0 <= i < fired.delta_responses@.len() ==> {
                    let fw = #[trigger] fired.delta_responses@[i];
                    let od = status_delta_watches(old(self).status@, node@);
                    &&& od.dom().contains(fw.index as int)
                    &&& delta_fires(od[fw.index as int], snapshot)
                    &&& fw.sink == od[fw.index as int].sink
                    &&& crate::delta::delta_delivery_ok(
                        fw.response.0,
                        fw.response.1,
                        od[fw.index as int].req@.type_url,
                        snapshot.resources@[od[fw.index as int].req@.type_url].items,
                        od[fw.index as int].stream,
                    )
                },
            forall|i: int, j: int|
                0 <= i < j < fired.delta_responses@.len() ==> fired.delta_responses@[i].index
                    < fired.delta_responses@[j].index,
            forall|k: int|
                status_delta_watches(old(self).status@, node@).dom().contains(k) && delta_fires(
                    status_delta_watches(old(self).status@, node@)[k],
                    snapshot,
                ) ==> exists|i: int|
                    0 <= i < fired.delta_responses@.len() && (
                    #[trigger] fired.delta_responses@[i]).index as int == k,
    {
        let ghost orig = snapshot;
        let mut snapshot = snapshot;
        snapshot.build_version_map();
        let ghost gsnap = snapshot;
        proof {
            assert forall|w: Watch| sotw_fires(w, gsnap) == sotw_fires(w, orig) by {
                assert(gsnap.resources@ == orig.resources@);
            }
        }
        let mut responses: Vec<FiredWatch> = Vec::new();
        let mut delta_responses: Vec<FiredDeltaWatch> = Vec::new();
        match self.status.remove(node) {
            Some(mut st) => {
                let ghost ow = watch_entries(st.watches);
                let ghost od = delta_watch_entries(st.delta_watches);
                let ghost lrt = st.last_request_time;
                let keys = crate::watch::watch_slab_keys(&st.watches);
                let kn = keys.len();
                let mut to_delete: Vec<usize> = Vec::new();
                for i in 0..kn
                    invariant
                        kn == keys@.len(),
                        snapshot == gsnap,
                        watch_entries(st.watches) == ow,
                        forall|x: int|
                            0 <= x < keys@.len() ==> ow.dom().contains((#[trigger] keys@[x]) as int),
                        forall|x: int, y: int| 0 <= x < y < keys@.len() ==> keys@[x] < keys@[y],
                        i == 0 ==> to_delete@.len() == 0,
                        i > 0 ==> forall|x: int|
                            0 <= x < to_delete@.len() ==> (#[trigger] to_delete@[x]) <= keys@[i
                                - 1],
                        forall|x: int|
                            0 <= x < to_delete@.len() ==> ow.dom().contains(
                                (#[trigger] to_delete@[x]) as int,
                            ) && sotw_fires(ow[to_delete@[x] as int], gsnap),
                        forall|x: int, y: int|
                            0 <= x < y < to_delete@.len() ==> to_delete@[x] < to_delete@[y],
                        forall|y: int|
                            0 <= y < i ==> (sotw_fires(ow[(#[trigger] keys@[y]) as int], gsnap)
                                <==> key_in_prefix(to_delete@, to_delete@.len() as int,
                                keys@[y] as int)),
                {
                    let k = keys[i];
                    let w = match crate::watch::watch_slab_get(&st.watches, k) {
                        Some(w) => w,
                        None => unreached(),
                    };
                    let version = snapshot.version(&w.req.type_url);
                    let ghost pre_td = to_delete@;
                    if !(version == w.req.version_info) {
                        proof {
                            assert forall|x: int|
                                0 <= x < to_delete@.len() implies to_delete@[x] < k by {
                                assert(i > 0);
                                assert(to_delete@[x] <= keys@[i - 1]);
                                assert(keys@[i - 1] < keys@[i as int]);
                            }
                        }
                        to_delete.push(k);
                    }
                    proof {
                        assert forall|x: int|
                            0 <= x < to_delete@.len() implies (#[trigger] to_delete@[x])
                            <= keys@[i as int] by {
                            if x < pre_td.len() {
                                assert(to_delete@[x] == pre_td[x]);
                                assert(i > 0);
                                assert(pre_td[x] <= keys@[i - 1]);
                                assert(keys@[i - 1] < keys@[i as int]);
                            } else {
                                assert(to_delete@[x] == keys@[i as int]);
                            }
                        }
                        assert forall|y: int|
                            0 <= y < i + 1 implies (sotw_fires(
                            ow[(#[trigger] keys@[y]) as int],
                            gsnap,
                        ) <==> key_in_prefix(to_delete@, to_delete@.len() as int, keys@[y] as int))
                            by {
                            if y < i {
                                if sotw_fires(ow[keys@[y] as int], gsnap) {
                                    let x = choose|x: int|
                                        0 <= x < pre_td.len() && (#[trigger] pre_td[x]) as int
                                            == keys@[y] as int;
                                    assert(to_delete@[x] as int == keys@[y] as int);
                                } else {
                                    if key_in_prefix(to_delete@, to_delete@.len() as int,
                                        keys@[y] as int) {
                                        let x = choose|x: int|
                                            0 <= x < to_delete@.len() && (
                                            #[trigger] to_delete@[x]) as int == keys@[y] as int;
                                        if x < pre_td.len() {
                                            assert(pre_td[x] as int == keys@[y] as int);
                                        } else {
                                            assert(keys@[i as int] as int == keys@[y] as int);
                                        }
                                    }
                                }
                            } else {
                                if sotw_fires(ow[keys@[y] as int], gsnap) {
                                    assert(to_delete@[to_delete@.len() - 1] == keys@[i as int]);
                                } else {
                                    if key_in_prefix(to_delete@, to_delete@.len() as int,
                                        keys@[y] as int) {
                                        let x = choose|x: int|
                                            0 <= x < to_delete@.len() && (
                                            #[trigger] to_delete@[x]) as int == keys@[y] as int;
                                        assert(x < pre_td.len() ==> pre_td[x] == keys@[y]);
                                    }
                                }
                            }
                        }
                    }
                }
                let dn = to_delete.len();
                for i in 0..dn
                    invariant
                        dn == to_delete@.len(),
                        snapshot == gsnap,
                        st.last_request_time == lrt,
                        delta_watch_entries(st.delta_watches) == od,
                        responses@.len() == i,
                        forall|x: int|
                            0 <= x < to_delete@.len() ==> ow.dom().contains(
                                (#[trigger] to_delete@[x]) as int,
                            ) && sotw_fires(ow[to_delete@[x] as int], gsnap),
                        forall|x: int, y: int|
                            0 <= x < y < to_delete@.len() ==> to_delete@[x] < to_delete@[y],
                        forall|k: int|
                            watch_entries(st.watches).dom().contains(k) <==> (ow.dom().contains(k)
                                && !key_in_prefix(to_delete@, i as int, k)),
                        forall|k: int|
                            #[trigger] watch_entries(st.watches).dom().contains(k)
                                ==> watch_entries(st.watches)[k] == ow[k],
                        forall|x: int|
                            0 <= x < i ==> {
                                let fw = #[trigger] responses@[x];
                                &&& fw.index == to_delete@[x]
                                &&& fw.sink == ow[to_delete@[x] as int].sink
                                &&& fw.response.0@ == ow[to_delete@[x] as int].req@
                                &&& response_ok(
                                    fw.response.1@,
                                    ow[to_delete@[x] as int].req@,
                                    gsnap,
                                    ow[to_delete@[x] as int].req@.type_url,
                                )
                            },
                {
                    let k = to_delete[i];
                    proof {
                        assert(!key_in_prefix(to_delete@, i as int, k as int));
                    }
                    let w = match crate::watch::watch_slab_try_remove(&mut st.watches, k) {
                        Some(w) => w,
                        None => unreached(),
                    };
                    let resources = snapshot.resources(&w.req.type_url);
                    let version = snapshot.version(&w.req.type_url);
                    let rep = build_response(&w.req, resources, &version);
                    proof {
                        assert(rep@.resources == response_payload(
                            w.req@.resource_names,
                            gsnap,
                            w.req@.type_url,
                        ));
                    }
                    responses.push(FiredWatch { index: k, sink: w.sink, response: (w.req, rep) });
                    proof {
                        assert forall|kk: int|
                            watch_entries(st.watches).dom().contains(kk) <==> (ow.dom().contains(kk)
                                && !key_in_prefix(to_delete@, i + 1, kk)) by {
                            if ow.dom().contains(kk) && key_in_prefix(to_delete@, i + 1, kk) {
                                let x = choose|x: int|
                                    0 <= x < i + 1 && (#[trigger] to_delete@[x]) as int == kk;
                                if x < i {
                                    assert(key_in_prefix(to_delete@, i as int, kk));
                                }
                            }
                            if ow.dom().contains(kk) && !key_in_prefix(to_delete@, i + 1, kk) {
                                assert(!key_in_prefix(to_delete@, i as int, kk)) by {
                                    if key_in_prefix(to_delete@, i as int, kk) {
                                        let x = choose|x: int|
                                            0 <= x < i && (#[trigger] to_delete@[x]) as int == kk;
                                        assert(0 <= x < i + 1 && to_delete@[x] as int == kk);
                                    }
                                }
                                assert(kk != k as int);
                            }
                        }
                    }
                }
                let ghost wsur = watch_entries(st.watches);
                let dkeys = crate::watch::delta_watch_slab_keys(&st.delta_watches);
                let dkn = dkeys.len();
                let mut d_to_delete: Vec<usize> = Vec::new();
                for i in 0..dkn
                    invariant
                        dkn == dkeys@.len(),
                        snapshot == gsnap,
                        version_map_complete(gsnap),
                        watch_entries(st.watches) == wsur,
                        delta_watch_entries(st.delta_watches) == od,
                        forall|k: int|
                            od.dom().contains(k) ==> gsnap.resources@.contains_key(
                                (#[trigger] od[k]).req@.type_url,
                            ),
                        forall|x: int|
                            0 <= x < dkeys@.len() ==> od.dom().contains(
                                (#[trigger] dkeys@[x]) as int,
                            ),
                        forall|x: int, y: int| 0 <= x < y < dkeys@.len() ==> dkeys@[x] < dkeys@[y],
                        delta_responses@.len() == d_to_delete@.len(),
                        i == 0 ==> d_to_delete@.len() == 0,
                        i > 0 ==> forall|x: int|
                            0 <= x < d_to_delete@.len() ==> (#[trigger] d_to_delete@[x])
                                <= dkeys@[i - 1],
                        forall|x: int|
                            0 <= x < d_to_delete@.len() ==> od.dom().contains(
                                (#[trigger] d_to_delete@[x]) as int,
                            ) && delta_fires(od[d_to_delete@[x] as int], gsnap),
                        forall|x: int, y: int|
                            0 <= x < y < d_to_delete@.len() ==> d_to_delete@[x] < d_to_delete@[y],
                        forall|y: int|
                            0 <= y < i ==> (delta_fires(od[(#[trigger] dkeys@[y]) as int], gsnap)
                                <==> key_in_prefix(d_to_delete@, d_to_delete@.len() as int,
                                dkeys@[y] as int)),
                        forall|x: int|
                            0 <= x < d_to_delete@.len() ==> {
                                let fw = #[trigger] delta_responses@[x];
                                &&& fw.index == d_to_delete@[x]
                                &&& fw.sink == od[d_to_delete@[x] as int].sink
                                &&& crate::delta::delta_delivery_ok(
                                    fw.response.0,
                                    fw.response.1,
                                    od[d_to_delete@[x] as int].req@.type_url,
                                    gsnap.resources@[od[d_to_delete@[x] as int].req@.type_url].items,
                                    od[d_to_delete@[x] as int].stream,
                                )
                            },
                {
                    let k = dkeys[i];
                    let dw = match crate::watch::delta_watch_slab_get(&st.delta_watches, k) {
                        Some(dw) => dw,
                        None => unreached(),
                    };
                    let ghost pre_td = d_to_delete@;
                    match try_respond_delta(&dw.req, &dw.stream, &mut snapshot) {
                        Some(resp) => {
                            proof {
                                assert forall|x: int|
                                    0 <= x < d_to_delete@.len() implies d_to_delete@[x] < k by {
                                    assert(i > 0);
                                    assert(d_to_delete@[x] <= dkeys@[i - 1]);
                                    assert(dkeys@[i - 1] < dkeys@[i as int]);
                                }
                            }
                            delta_responses.push(
                                FiredDeltaWatch { index: k, sink: dw.sink, response: resp },
                            );
                            d_to_delete.push(k);
                        },
                        None => {},
                    }
                    proof {
                        assert forall|x: int|
                            0 <= x < d_to_delete@.len() implies (#[trigger] d_to_delete@[x])
                            <= dkeys@[i as int] by {
                            if x < pre_td.len() {
                                assert(d_to_delete@[x] == pre_td[x]);
                                assert(i > 0);
                                assert(pre_td[x] <= dkeys@[i - 1]);
                                assert(dkeys@[i - 1] < dkeys@[i as int]);
                            } else {
                                assert(d_to_delete@[x] == dkeys@[i as int]);
                            }
                        }
                        assert forall|y: int|
                            0 <= y < i + 1 implies (delta_fires(
                            od[(#[trigger] dkeys@[y]) as int],
                            gsnap,
                        ) <==> key_in_prefix(d_to_delete@, d_to_delete@.len() as int,
                            dkeys@[y] as int)) by {
                            if y < i {
                                if delta_fires(od[dkeys@[y] as int], gsnap) {
                                    let x = choose|x: int|
                                        0 <= x < pre_td.len() && (#[trigger] pre_td[x]) as int
                                            == dkeys@[y] as int;
                                    assert(d_to_delete@[x] as int == dkeys@[y] as int);
                                } else {
                                    if key_in_prefix(d_to_delete@, d_to_delete@.len() as int,
                                        dkeys@[y] as int) {
                                        let x = choose|x: int|
                                            0 <= x < d_to_delete@.len() && (
                                            #[trigger] d_to_delete@[x]) as int == dkeys@[y] as int;
                                        if x < pre_td.len() {
                                            assert(pre_td[x] as int == dkeys@[y] as int);
                                        } else {
                                            assert(dkeys@[i as int] as int == dkeys@[y] as int);
                                        }
                                    }
                                }
                            } else {
                                if delta_fires(od[dkeys@[y] as int], gsnap) {
                                    assert(d_to_delete@[d_to_delete@.len() - 1]
                                        == dkeys@[i as int]);
                                } else {
                                    if key_in_prefix(d_to_delete@, d_to_delete@.len() as int,
                                        dkeys@[y] as int) {
                                        let x = choose|x: int|
                                            0 <= x < d_to_delete@.len() && (
                                            #[trigger] d_to_delete@[x]) as int == dkeys@[y] as int;
                                        assert(x < pre_td.len() ==> pre_td[x] == dkeys@[y]);
                                    }
                                }
                            }
                        }
                    }
                }
                let rn = d_to_delete.len();
                for i in 0..rn
                    invariant
                        rn == d_to_delete@.len(),
                        snapshot == gsnap,
                        st.last_request_time == lrt,
                        watch_entries(st.watches) == wsur,
                        forall|x: int|
                            0 <= x < d_to_delete@.len() ==> od.dom().contains(
                                (#[trigger] d_to_delete@[x]) as int,
                            ),
                        forall|x: int, y: int|
                            0 <= x < y < d_to_delete@.len() ==> d_to_delete@[x] < d_to_delete@[y],
                        forall|k: int|
                            delta_watch_entries(st.delta_watches).dom().contains(k) <==> (
                            od.dom().contains(k) && !key_in_prefix(d_to_delete@, i as int, k)),
                        forall|k: int|
                            #[trigger] delta_watch_entries(st.delta_watches).dom().contains(k)
                                ==> delta_watch_entries(st.delta_watches)[k] == od[k],
                {
                    let k = d_to_delete[i];
                    proof {
                        assert(!key_in_prefix(d_to_delete@, i as int, k as int));
                    }
                    match crate::watch::delta_watch_slab_try_remove(&mut st.delta_watches, k) {
                        Some(_) => {},
                        None => unreached(),
                    }
                    proof {
                        assert forall|kk: int|
                            delta_watch_entries(st.delta_watches).dom().contains(kk) <==> (
                            od.dom().contains(kk) && !key_in_prefix(d_to_delete@, i + 1, kk)) by {
                            if od.dom().contains(kk) && key_in_prefix(d_to_delete@, i + 1, kk) {
                                let x = choose|x: int|
                                    0 <= x < i + 1 && (#[trigger] d_to_delete@[x]) as int == kk;
                                if x < i {
                                    assert(key_in_prefix(d_to_delete@, i as int, kk));
                                }
                            }
                            if od.dom().contains(kk) && !key_in_prefix(d_to_delete@, i + 1, kk) {
                                assert(!key_in_prefix(d_to_delete@, i as int, kk)) by {
                                    if key_in_prefix(d_to_delete@, i as int, kk) {
                                        let x = choose|x: int|
                                            0 <= x < i && (#[trigger] d_to_delete@[x]) as int
                                                == kk;
                                        assert(0 <= x < i + 1 && d_to_delete@[x] as int == kk);
                                    }
                                }
                                assert(kk != k as int);
                            }
                        }
                    }
                }
                proof {
                    assert forall|w: DeltaWatch| delta_fires(w, gsnap) == delta_fires(
                        w,
                        orig,
                    ) by {
                        assert(gsnap.resources@ == orig.resources@);
                    }
                    assert forall|k: int|
                        watch_entries(st.watches).dom().contains(k) == (ow.dom().contains(k)
                            && !sotw_fires(#[trigger] ow[k], orig)) by {
                        if ow.dom().contains(k) {
                            let y = choose|y: int|
                                0 <= y < keys@.len() && (#[trigger] keys@[y]) as int == k;
                            assert(sotw_fires(ow[keys@[y] as int], gsnap) <==> key_in_prefix(
                                to_delete@,
                                to_delete@.len() as int,
                                keys@[y] as int,
                            ));
                        }
                    }
                    assert(watch_entries(st.watches) =~= surviving_watches(ow, orig));
                    assert forall|k: int|
                        delta_watch_entries(st.delta_watches).dom().contains(k) == (
                        od.dom().contains(k) && !delta_fires(#[trigger] od[k], orig)) by {
                        if od.dom().contains(k) {
                            let y = choose|y: int|
                                0 <= y < dkeys@.len() && (#[trigger] dkeys@[y]) as int == k;
                            assert(delta_fires(od[dkeys@[y] as int], gsnap) <==> key_in_prefix(
                                d_to_delete@,
                                d_to_delete@.len() as int,
                                dkeys@[y] as int,
                            ));
                        }
                    }
                    assert(delta_watch_entries(st.delta_watches) =~= surviving_delta_watches(
                        od,
                        orig,
                    ));
                    assert forall|k: int|
                        ow.dom().contains(k) && sotw_fires(ow[k], orig) implies exists|i: int|
                        0 <= i < responses@.len() && (#[trigger] responses@[i]).index as int
                            == k by {
                        let y = choose|y: int|
                            0 <= y < keys@.len() && (#[trigger] keys@[y]) as int == k;
                        assert(sotw_fires(ow[keys@[y] as int], gsnap) <==> key_in_prefix(
                            to_delete@,
                            to_delete@.len() as int,
                            keys@[y] as int,
                        ));
                        let x = choose|x: int|
                            0 <= x < to_delete@.len() && (#[trigger] to_delete@[x]) as int == k;
                        assert(responses@[x].index as int == k);
                    }
                    assert forall|k: int|
                        od.dom().contains(k) && delta_fires(od[k], orig) implies exists|i: int|
                        0 <= i < delta_responses@.len() && (
                        #[trigger] delta_responses@[i]).index as int == k by {
                        let y = choose|y: int|
                            0 <= y < dkeys@.len() && (#[trigger] dkeys@[y]) as int == k;
                        assert(delta_fires(od[dkeys@[y] as int], gsnap) <==> key_in_prefix(
                            d_to_delete@,
                            d_to_delete@.len() as int,
                            dkeys@[y] as int,
                        ));
                        let x = choose|x: int|
                            0 <= x < d_to_delete@.len() && (#[trigger] d_to_delete@[x]) as int
                                == k;
                        assert(delta_responses@[x].index as int == k);
                    }
                }
                self.status.insert(node.clone(), st);
                proof {
                    assert(self.status@.dom() =~= old(self).status@.dom());
                }
            },
            None => {
                proof {
                    assert(status_watches(self.status@, node@) =~= surviving_watches(
                        status_watches(old(self).status@, node@),
                        orig,
                    ));
                    assert(status_delta_watches(self.status@, node@) =~= surviving_delta_watches(
                        status_delta_watches(old(self).status@, node@),
                        orig,
                    ));
                }
            },
        }
        self.snapshots.insert(node.clone(), snapshot);
        proof {
            assert(self.snapshots@.dom() =~= old(self).snapshots@.dom().insert(node@));
        }
        FiredResponses { responses, delta_responses }
    }
}

} // verus!
