//! The state-of-the-world stream machine: per-peer ack tracking, known
//! resource names, and watch management over the cache.
//!
//! The machine is transport-free: `handle_client_request` consumes a decoded
//! request and says what to do (a fatal ADS error, a response to queue, or
//! nothing), and `handle_watch_response` stamps a delivered response with
//! the next nonce for forwarding.

use crate::api::{DiscoveryRequest, DiscoveryResponse, Node, SpecDiscoveryRequest};
use crate::cache::{
    responds_now, response_ok, spec_hash_id, status_delta_watches, status_watches,
    CreateWatchOutcome, SnapshotCache, WatchResponse,
};
use crate::decimal::{dec_string_of, u64_to_dec_string};
use crate::stream_handle::{name_views_set, spec_known, StreamHandle};
use crate::strmap::StrMap;
use crate::watch::{Watch, WatchId};
use crate::watches::Watches;
use vstd::prelude::*;

verus! {

/// The message a peer receives when an ADS stream's request carries no
/// type URL; the stream then terminates.
pub const ADS_TYPE_URL_REQUIRED: &'static str = "type URL is required for ADS";

/// The view of an optional node: its id when present.
pub open spec fn node_view(n: Option<Node>) -> Option<Seq<char>> {
    match n {
        Some(x) => Some(x@),
        None => None,
    }
}

/// What the stream last sent for a type: the nonce it carried and the
/// resource names of the request it answered.
pub struct LastResponse {
    pub nonce: i64,
    pub resource_names: Vec<String>,
}

/// What handling one inbound request asks the embedder to do.
pub enum RequestOutcome {
    /// The stream is ADS and the request carries no type URL: fatal.
    MissingTypeUrl,
    /// The cache answered at once: queue this for `handle_watch_response`.
    Queued(WatchResponse),
    /// A watch is pending (fresh or left over); nothing to send now.
    NoResponse,
}

/// Per-peer SotW stream state.
pub struct Stream {
    pub type_url: String,
    pub sink: u64,
    pub nonce: i64,
    pub known_resource_names: StreamHandle,
    pub node: Option<Node>,
    pub last_responses: StrMap<LastResponse>,
    pub watches: Watches,
}

/// The request as the stream hands it to the cache: the remembered node
/// substituted when absent, the stream's type URL defaulted when empty.
pub open spec fn effective_req(
    req: SpecDiscoveryRequest,
    stream_node: Option<Seq<char>>,
    stream_type: Seq<char>,
) -> SpecDiscoveryRequest {
    SpecDiscoveryRequest {
        node: if req.node is Some {
            req.node
        } else {
            stream_node
        },
        type_url: if req.type_url.len() == 0 {
            stream_type
        } else {
            req.type_url
        },
        ..req
    }
}

/// Whether a request for this type counts as an ack of the last response:
/// one was recorded and its nonce is zero or the stream's current nonce.
pub open spec fn spec_is_ack(stream: Stream, t: Seq<char>) -> bool {
    stream.last_responses@.contains_key(t) && (stream.last_responses@[t].nonce == 0
        || stream.last_responses@[t].nonce == stream.nonce)
}

/// Whether the registered watch for this type is stale: it exists and its
/// recorded nonce is set but not the stream's current nonce (a stale nack).
pub open spec fn spec_watch_stale(stream: Stream, t: Seq<char>) -> bool {
    stream.watches.active@.contains_key(t) && match stream.watches.active@[t].nonce {
        None => false,
        Some(x) => x != stream.nonce,
    }
}

/// The watch the stream cancels before re-watching, if one is registered.
pub open spec fn spec_cancelled(stream: Stream, t: Seq<char>) -> Option<WatchId> {
    if stream.watches.active@.contains_key(t) {
        Some(stream.watches.active@[t].id)
    } else {
        None
    }
}

/// A node's cache watches after the cancellation (if any) is applied.
pub open spec fn watches_after_cancel(
    pre: SnapshotCache,
    cid: Option<WatchId>,
    n: Seq<char>,
) -> Map<int, Watch> {
    match cid {
        Some(id) => if n == id.node_id@ {
            status_watches(pre.status@, n).remove(id.index as int)
        } else {
            status_watches(pre.status@, n)
        },
        None => status_watches(pre.status@, n),
    }
}

/// The status bookkeeping one request refreshes: the node's entry exists
/// with the new time; nothing else of the status map changes.
pub open spec fn status_refreshed(
    pre: SnapshotCache,
    post: SnapshotCache,
    nid: Seq<char>,
    now: u64,
) -> bool {
    post.status@.dom() == pre.status@.dom().insert(nid) && post.status@.contains_key(nid)
        && post.status@[nid].last_request_time == now && (forall|n: Seq<char>|
        n != nid && pre.status@.contains_key(n) ==> post.status@[n].last_request_time
            == pre.status@[n].last_request_time)
}

impl Stream {
    /// A fresh stream for one peer: `type_url` is the service's type (empty
    /// for ADS), `sink` the token under which the cache tags this stream's
    /// responses.
    pub fn new(type_url: String, sink: u64) -> (r: Self)
        ensures
            r.type_url@ == type_url@,
            r.sink == sink,
            r.nonce == 0,
            r.known_resource_names.known_resource_names@ == Map::<
                Seq<char>,
                crate::strmap::StrSet,
            >::empty(),
            r.node is None,
            r.last_responses@ == Map::<Seq<char>, LastResponse>::empty(),
            r.watches.active@ == Map::<Seq<char>, crate::watches::Watch>::empty(),
    {
        Stream {
            type_url,
            sink,
            nonce: 0,
            known_resource_names: StreamHandle::new(),
            node: None,
            last_responses: StrMap::new(),
            watches: Watches::new(),
        }
    }

    /// Handles one inbound request: caches the node, enforces the ADS type
    /// URL rule, records acknowledged names, and refreshes the watch for the
    /// request's type unless the request is a stale nack.
    pub fn handle_client_request(
        &mut self,
        cache: &mut SnapshotCache,
        req: DiscoveryRequest,
        now: u64,
    ) -> (r: RequestOutcome)
        requires
            old(cache).inv(),
        ensures
            final(cache).inv(),
            final(cache).ads == old(cache).ads,
            final(cache).snapshots == old(cache).snapshots,
            final(self).type_url == old(self).type_url,
            final(self).sink == old(self).sink,
            final(self).nonce == old(self).nonce,
            final(self).last_responses == old(self).last_responses,
            node_view(final(self).node) == (if req@.node is Some {
                req@.node
            } else {
                node_view(old(self).node)
            }),
            ({
                let er = effective_req(req@, node_view(old(self).node), old(self).type_url@);
                let t = er.type_url;
                let nid = spec_hash_id(er.node);
                let missing = old(self).type_url@.len() == 0 && req@.type_url.len() == 0;
                let acked = !missing && spec_is_ack(*old(self), t);
                let stale = spec_watch_stale(*old(self), t);
                let cid = spec_cancelled(*old(self), t);
                &&& (match r {
                    RequestOutcome::MissingTypeUrl => missing && *final(cache) == *old(cache)
                        && final(self).watches == old(self).watches,
                    RequestOutcome::Queued(resp) => !missing && !stale && old(cache).snapshots@.contains_key(nid) && responds_now(
                        old(cache).ads,
                        old(cache).snapshots@[nid],
                        er,
                        final(self).known_resource_names,
                    ) && resp.0@ == er && response_ok(
                        resp.1@,
                        er,
                        old(cache).snapshots@[nid],
                        t,
                    ) && final(self).watches == old(self).watches && status_refreshed(
                        *old(cache),
                        *final(cache),
                        nid,
                        now,
                    ) && (forall|n: Seq<char>|
                        status_delta_watches(final(cache).status@, n) == status_delta_watches(
                            old(cache).status@,
                            n,
                        )) && (forall|n: Seq<char>|
                        status_watches(final(cache).status@, n) == watches_after_cancel(
                            *old(cache),
                            cid,
                            n,
                        )),
                    RequestOutcome::NoResponse => !missing && if stale {
                        *final(cache) == *old(cache) && final(self).watches == old(self).watches
                    } else {
                        &&& !(old(cache).snapshots@.contains_key(nid) && responds_now(
                            old(cache).ads,
                            old(cache).snapshots@[nid],
                            er,
                            final(self).known_resource_names,
                        ))
                        &&& status_refreshed(*old(cache), *final(cache), nid, now)
                        &&& forall|n: Seq<char>|
                            status_delta_watches(final(cache).status@, n) == status_delta_watches(
                                old(cache).status@,
                                n,
                            )
                        &&& final(self).watches.active@.contains_key(t)
                        &&& final(self).watches.active@[t].nonce is None
                        &&& final(self).watches.active@ == old(self).watches.active@.insert(
                            t,
                            final(self).watches.active@[t],
                        )
                        &&& {
                            let id = final(self).watches.active@[t].id;
                            &&& id.node_id@ == nid
                            &&& !watches_after_cancel(*old(cache), cid, nid).dom().contains(
                                id.index as int,
                            )
                            &&& status_watches(final(cache).status@, nid) == watches_after_cancel(
                                *old(cache),
                                cid,
                                nid,
                            ).insert(
                                id.index as int,
                                status_watches(final(cache).status@, nid)[id.index as int],
                            )
                            &&& status_watches(final(cache).status@, nid)[id.index as int].req@
                                == er
                            &&& status_watches(final(cache).status@, nid)[id.index as int].sink
                                == old(self).sink
                            &&& forall|n: Seq<char>|
                                n != nid ==> status_watches(final(cache).status@, n)
                                    == watches_after_cancel(*old(cache), cid, n)
                        }
                    },
                })
                &&& (if !missing && acked {
                    spec_known(final(self).known_resource_names, t) == spec_known(
                        old(self).known_resource_names,
                        t,
                    ).union(
                        name_views_set(old(self).last_responses@[t].resource_names.deep_view()),
                    )
                } else {
                    spec_known(final(self).known_resource_names, t) == spec_known(
                        old(self).known_resource_names,
                        t,
                    )
                })
                &&& forall|t2: Seq<char>|
                    t2 != t ==> spec_known(final(self).known_resource_names, t2) == spec_known(
                        old(self).known_resource_names,
                        t2,
                    )
            }),
    {
        let ghost orig_req = req@;
        let mut req = req;
        match &req.node {
            Some(n) => {
                self.node = Some(n.duplicate());
            },
            None => {
                req.node = match &self.node {
                    Some(n) => Some(n.duplicate()),
                    None => None,
                };
            },
        }
        if self.type_url.as_str().is_empty() && req.type_url.as_str().is_empty() {
            return RequestOutcome::MissingTypeUrl;
        }
        if req.type_url.as_str().is_empty() {
            req.type_url = self.type_url.clone();
        }
        proof {
            assert(req@ =~= effective_req(orig_req, node_view(old(self).node), old(self).type_url@));
        }
        let is_ack = match self.last_responses.get(&req.type_url) {
            Some(lr) => lr.nonce == 0 || lr.nonce == self.nonce,
            None => false,
        };
        if is_ack {
            match self.last_responses.get(&req.type_url) {
                Some(lr) => {
                    self.known_resource_names.add_known_resource_names(
                        &req.type_url,
                        &lr.resource_names,
                    );
                },
                None => {},
            }
        }
        let stale = match self.watches.get(&req.type_url) {
            Some(w) => match w.nonce {
                Some(x) => x != self.nonce,
                None => false,
            },
            None => false,
        };
        if stale {
            return RequestOutcome::NoResponse;
        }
        match self.watches.get(&req.type_url) {
            Some(w) => {
                cache.cancel_watch(&w.id);
            },
            None => {},
        }
        let outcome = cache.create_watch(&req, self.sink, &self.known_resource_names, now);
        match outcome {
            CreateWatchOutcome::Respond(resp) => RequestOutcome::Queued(resp),
            CreateWatchOutcome::WatchSet(id) => {
                self.watches.add(&req.type_url, id);
                RequestOutcome::NoResponse
            },
        }
    }

    /// Stamps a response delivered by the cache with the next nonce, records
    /// what it answered, and hands back the response to forward to the peer.
    pub fn handle_watch_response(&mut self, rep: WatchResponse) -> (out: DiscoveryResponse)
        requires
            0 <= old(self).nonce < i64::MAX,
        ensures
            final(self).type_url == old(self).type_url,
            final(self).sink == old(self).sink,
            final(self).node == old(self).node,
            final(self).known_resource_names == old(self).known_resource_names,
            final(self).nonce == old(self).nonce + 1,
            out@.type_url == rep.1@.type_url,
            out@.version_info == rep.1@.version_info,
            out@.resources == rep.1@.resources,
            out@.control_plane == rep.1@.control_plane,
            out@.canary == rep.1@.canary,
            out@.nonce == dec_string_of((old(self).nonce + 1) as nat),
            final(self).last_responses@.dom() == old(self).last_responses@.dom().insert(
                rep.0@.type_url,
            ),
            final(self).last_responses@[rep.0@.type_url].nonce == old(self).nonce + 1,
            final(self).last_responses@[rep.0@.type_url].resource_names.deep_view()
                == rep.0@.resource_names,
            forall|t: Seq<char>|
                t != rep.0@.type_url && old(self).last_responses@.contains_key(t) ==> final(self).last_responses@[t] == old(self).last_responses@[t],
            old(self).watches.active@.contains_key(rep.0@.type_url) ==> final(self).watches.active@
                == old(self).watches.active@.insert(
                rep.0@.type_url,
                crate::watches::Watch {
                    nonce: Some((old(self).nonce + 1) as i64),
                    id: old(self).watches.active@[rep.0@.type_url].id,
                },
            ),
            !old(self).watches.active@.contains_key(rep.0@.type_url) ==> final(self).watches.active@ == old(self).watches.active@,
    {
        self.nonce = self.nonce + 1;
        let (watched_req, mut response) = rep;
        response.nonce = u64_to_dec_string(self.nonce as u64);
        let last_response = LastResponse {
            nonce: self.nonce,
            resource_names: watched_req.resource_names,
        };
        self.last_responses.insert(watched_req.type_url.clone(), last_response);
        self.watches.set_nonce(&watched_req.type_url, self.nonce);
        proof {
            assert(self.last_responses@.dom() =~= old(self).last_responses@.dom().insert(
                watched_req.type_url@,
            ));
        }
        response
    }
}

} // verus!
