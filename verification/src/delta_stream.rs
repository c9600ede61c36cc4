//! The delta (incremental) stream machine: per-type subscription state,
//! watch management over the cache, and nonce stamping.

use crate::api::{DeltaDiscoveryRequest, DeltaDiscoveryResponse, Node, SpecDeltaDiscoveryRequest};
use crate::cache::{
    spec_hash_id, status_delta_watches, status_watches, CreateDeltaWatchOutcome,
    DeltaWatchResponse, SnapshotCache,
};
use crate::decimal::{dec_string_of, u64_to_dec_string};
use crate::delta::{delta_delivery_ok, delta_sends, handle_like};
use crate::delta_watches::DeltaWatches;
use crate::stream::{node_view, status_refreshed};
use crate::stream_handle::{
    spec_subscribe, spec_unsubscribe, DeltaStreamHandle, SpecDeltaHandle,
};
use crate::strmap::StrMap;
use crate::watch::{DeltaWatch, WatchId};
use vstd::prelude::*;

verus! {

/// What handling one inbound delta request asks the embedder to do.
pub enum DeltaRequestOutcome {
    /// The stream is ADS and the request carries no type URL: fatal.
    MissingTypeUrl,
    /// The cache answered at once: queue this for `handle_watch_response`.
    Queued(DeltaWatchResponse),
    /// A delta watch is pending; nothing to send now.
    NoResponse,
}

/// Per-peer delta stream state.
pub struct DeltaStream {
    pub type_url: String,
    pub sink: u64,
    pub nonce: i64,
    pub node: Option<Node>,
    pub states: StrMap<DeltaStreamHandle>,
    pub watches: DeltaWatches,
}

/// The request as the stream hands it to the cache: the remembered node
/// substituted when absent, the stream's type URL defaulted when empty.
pub open spec fn effective_delta_req(
    req: SpecDeltaDiscoveryRequest,
    stream_node: Option<Seq<char>>,
    stream_type: Seq<char>,
) -> SpecDeltaDiscoveryRequest {
    SpecDeltaDiscoveryRequest {
        node: if req.node is Some {
            req.node
        } else {
            stream_node
        },
        type_url: if req.type_url.len() == 0 {
            stream_type
        } else {
            req.type_url
        },
        ..req
    }
}

/// The subscription state for a type before this request's lists apply:
/// the recorded one, or a fresh one derived from the request.
pub open spec fn base_state(
    states: Map<Seq<char>, DeltaStreamHandle>,
    t: Seq<char>,
    er: SpecDeltaDiscoveryRequest,
) -> SpecDeltaHandle {
    if states.contains_key(t) {
        states[t]@
    } else {
        SpecDeltaHandle {
            wildcard: er.resource_names_subscribe.len() == 0 && er.resource_names_unsubscribe.len()
                == 0,
            subscribed: Set::<Seq<char>>::empty(),
            versions: er.initial_resource_versions,
            first: true,
        }
    }
}

/// The subscription state after this request's subscribe and unsubscribe
/// lists apply, the first-exchange flag cleared.
pub open spec fn applied_state(
    states: Map<Seq<char>, DeltaStreamHandle>,
    t: Seq<char>,
    er: SpecDeltaDiscoveryRequest,
) -> SpecDeltaHandle {
    spec_unsubscribe(
        spec_subscribe(
            SpecDeltaHandle { first: false, ..base_state(states, t, er) },
            er.resource_names_subscribe,
        ),
        er.resource_names_unsubscribe,
    )
}

/// A node's delta cache watches after the cancellation (if any) applies.
pub open spec fn delta_after_cancel(
    pre: SnapshotCache,
    cid: Option<WatchId>,
    n: Seq<char>,
) -> Map<int, DeltaWatch> {
    match cid {
        Some(id) => if n == id.node_id@ {
            status_delta_watches(pre.status@, n).remove(id.index as int)
        } else {
            status_delta_watches(pre.status@, n)
        },
        None => status_delta_watches(pre.status@, n),
    }
}

/// The delta watch the stream cancels before re-watching, if registered.
pub open spec fn spec_delta_cancelled(stream: DeltaStream, t: Seq<char>) -> Option<WatchId> {
    if stream.watches.active@.contains_key(t) {
        Some(stream.watches.active@[t].id)
    } else {
        None
    }
}

impl DeltaStream {
    /// A fresh delta stream for one peer.
    pub fn new(type_url: String, sink: u64) -> (r: Self)
        ensures
            r.type_url@ == type_url@,
            r.sink == sink,
            r.nonce == 0,
            r.node is None,
            r.states@ == Map::<Seq<char>, DeltaStreamHandle>::empty(),
            r.watches.active@ == Map::<Seq<char>, crate::delta_watches::Watch>::empty(),
    {
        DeltaStream {
            type_url,
            sink,
            nonce: 0,
            node: None,
            states: StrMap::new(),
            watches: DeltaWatches::new(),
        }
    }

    /// Handles one inbound delta request: caches the node, enforces the ADS
    /// type URL rule, cancels the open watch for the type, applies the
    /// request's subscription changes, and asks the cache for a delta.
    pub fn handle_client_request(
        &mut self,
        cache: &mut SnapshotCache,
        req: DeltaDiscoveryRequest,
        now: u64,
    ) -> (r: DeltaRequestOutcome)
        requires
            old(cache).inv(),
            !(old(self).type_url@.len() == 0 && req@.type_url.len() == 0) ==> {
                let er = effective_delta_req(
                    req@,
                    node_view(old(self).node),
                    old(self).type_url@,
                );
                old(cache).snapshots@.contains_key(spec_hash_id(er.node)) ==> old(
                    cache,
                ).snapshots@[spec_hash_id(er.node)].resources@.contains_key(er.type_url)
            },
        ensures
            final(cache).inv(),
            final(cache).ads == old(cache).ads,
            final(cache).snapshots@ == old(cache).snapshots@,
            final(self).type_url == old(self).type_url,
            final(self).sink == old(self).sink,
            final(self).nonce == old(self).nonce,
            node_view(final(self).node) == (if req@.node is Some {
                req@.node
            } else {
                node_view(old(self).node)
            }),
            ({
                let er = effective_delta_req(req@, node_view(old(self).node), old(self).type_url@);
                let t = er.type_url;
                let nid = spec_hash_id(er.node);
                let missing = old(self).type_url@.len() == 0 && req@.type_url.len() == 0;
                let cid = spec_delta_cancelled(*old(self), t);
                match r {
                    DeltaRequestOutcome::MissingTypeUrl => missing && *final(cache) == *old(cache)
                        && final(self).watches == old(self).watches && final(self).states == old(
                        self,
                    ).states,
                    DeltaRequestOutcome::Queued(resp) => {
                        &&& !missing
                        &&& final(self).states@.contains_key(t)
                        &&& final(self).states@ == old(self).states@.insert(
                            t,
                            final(self).states@[t],
                        )
                        &&& final(self).states@[t]@ == applied_state(old(self).states@, t, er)
                        &&& old(cache).snapshots@.contains_key(nid)
                        &&& delta_sends(
                            final(self).states@[t],
                            old(cache).snapshots@[nid].resources@[t].items,
                        )
                        &&& delta_delivery_ok(
                            resp.0,
                            resp.1,
                            t,
                            old(cache).snapshots@[nid].resources@[t].items,
                            final(self).states@[t],
                        )
                        &&& final(self).watches.active@ == old(self).watches.active@.remove(t)
                        &&& status_refreshed(*old(cache), *final(cache), nid, now)
                        &&& forall|n: Seq<char>|
                            status_watches(final(cache).status@, n) == status_watches(
                                old(cache).status@,
                                n,
                            )
                        &&& forall|n: Seq<char>|
                            status_delta_watches(final(cache).status@, n) == delta_after_cancel(
                                *old(cache),
                                cid,
                                n,
                            )
                    },
                    DeltaRequestOutcome::NoResponse => {
                        &&& !missing
                        &&& final(self).states@.contains_key(t)
                        &&& final(self).states@ == old(self).states@.insert(
                            t,
                            final(self).states@[t],
                        )
                        &&& final(self).states@[t]@ == applied_state(old(self).states@, t, er)
                        &&& !(old(cache).snapshots@.contains_key(nid) && delta_sends(
                            final(self).states@[t],
                            old(cache).snapshots@[nid].resources@[t].items,
                        ))
                        &&& status_refreshed(*old(cache), *final(cache), nid, now)
                        &&& forall|n: Seq<char>|
                            status_watches(final(cache).status@, n) == status_watches(
                                old(cache).status@,
                                n,
                            )
                        &&& final(self).watches.active@.contains_key(t)
                        &&& final(self).watches.active@ == old(self).watches.active@.insert(
                            t,
                            final(self).watches.active@[t],
                        )
                        &&& {
                            let id = final(self).watches.active@[t].id;
                            &&& id.node_id@ == nid
                            &&& !delta_after_cancel(*old(cache), cid, nid).dom().contains(
                                id.index as int,
                            )
                            &&& status_delta_watches(final(cache).status@, nid)
                                == delta_after_cancel(*old(cache), cid, nid).insert(
                                id.index as int,
                                status_delta_watches(final(cache).status@, nid)[id.index as int],
                            )
                            &&& status_delta_watches(
                                final(cache).status@,
                                nid,
                            )[id.index as int].req@ == er
                            &&& status_delta_watches(
                                final(cache).status@,
                                nid,
                            )[id.index as int].sink == old(self).sink
                            &&& status_delta_watches(
                                final(cache).status@,
                                nid,
                            )[id.index as int].stream@ == final(self).states@[t]@
                            &&& handle_like(
                                status_delta_watches(
                                    final(cache).status@,
                                    nid,
                                )[id.index as int].stream,
                                final(self).states@[t],
                            )
                            &&& forall|n: Seq<char>|
                                n != nid ==> status_delta_watches(final(cache).status@, n)
                                    == delta_after_cancel(*old(cache), cid, n)
                        }
                    },
                }
            }),
    {
        let ghost orig_req = req@;
        let mut req = req;
        match &req.node {
            Some(n) => {
                self.node = Some(n.duplicate());
            },
            None => {
                req.node = match &self.node {
                    Some(n) => Some(n.duplicate()),
                    None => None,
                };
            },
        }
        if self.type_url.as_str().is_empty() && req.type_url.as_str().is_empty() {
            return DeltaRequestOutcome::MissingTypeUrl;
        }
        if req.type_url.as_str().is_empty() {
            req.type_url = self.type_url.clone();
        }
        proof {
            assert(req@ =~= effective_delta_req(
                orig_req,
                node_view(old(self).node),
                old(self).type_url@,
            ));
        }
        let mut state = match self.states.remove(&req.type_url) {
            Some(s) => s,
            None => DeltaStreamHandle::new(&req),
        };
        match self.watches.remove(&req.type_url) {
            Some(w) => {
                cache.cancel_delta_watch(&w.id);
            },
            None => {},
        }
        state.apply_subscriptions(&req);
        let outcome = cache.create_delta_watch(&req, self.sink, &state, now);
        let ghost applied = state;
        self.states.insert(req.type_url.clone(), state);
        proof {
            assert(self.states@ =~= old(self).states@.insert(req@.type_url, applied));
        }
        match outcome {
            CreateDeltaWatchOutcome::Respond(resp) => DeltaRequestOutcome::Queued(resp),
            CreateDeltaWatchOutcome::WatchSet(id) => {
                self.watches.add(&req.type_url, id);
                DeltaRequestOutcome::NoResponse
            },
        }
    }

    /// Stamps a delivered delta response with the next nonce, installs its
    /// next version map into the type's state, and hands back the response
    /// to forward to the peer.
    pub fn handle_watch_response(&mut self, rep: DeltaWatchResponse) -> (out:
        DeltaDiscoveryResponse)
        requires
            0 <= old(self).nonce < i64::MAX,
            old(self).states@.contains_key(rep.0@.type_url),
        ensures
            final(self).type_url == old(self).type_url,
            final(self).sink == old(self).sink,
            final(self).node == old(self).node,
            final(self).watches == old(self).watches,
            final(self).nonce == old(self).nonce + 1,
            out@.type_url == rep.0@.type_url,
            out@.resources == rep.0@.resources,
            out@.removed_resources == rep.0@.removed_resources,
            out@.nonce == dec_string_of((old(self).nonce + 1) as nat),
            final(self).states@ == old(self).states@.insert(
                rep.0@.type_url,
                final(self).states@[rep.0@.type_url],
            ),
            final(self).states@[rep.0@.type_url] == (DeltaStreamHandle {
                resource_versions: rep.1,
                ..old(self).states@[rep.0@.type_url]
            }),
    {
        self.nonce = self.nonce + 1;
        let (mut response, next_versions) = rep;
        response.nonce = u64_to_dec_string(self.nonce as u64);
        let mut state = match self.states.remove(&response.type_url) {
            Some(s) => s,
            None => unreached(),
        };
        state.set_resource_versions(next_versions);
        let ghost updated = state;
        self.states.insert(response.type_url.clone(), state);
        proof {
            assert(self.states@ =~= old(self).states@.insert(response@.type_url, updated));
        }
        response
    }
}

} // verus!
