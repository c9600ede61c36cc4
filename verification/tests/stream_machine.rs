//! The SotW stream machine driven against a real cache, mirroring the
//! behaviours the stream must show per request.

use rust_control_plane::api::{DiscoveryRequest, Node};
use rust_control_plane::cache::SnapshotCache;
use rust_control_plane::snapshot::{Resource, Resources, Snapshot};
use rust_control_plane::stream::{RequestOutcome, Stream, ADS_TYPE_URL_REQUIRED};
use rust_control_plane::type_url::{ANY_TYPE, CLUSTER, ENDPOINT};
use rust_control_plane::watches;

fn plain_request(node: Option<&str>, type_url: &str) -> DiscoveryRequest {
    DiscoveryRequest {
        node: node.map(|id| Node { id: id.to_string() }),
        type_url: type_url.to_string(),
        version_info: String::new(),
        resource_names: Vec::new(),
        response_nonce: String::new(),
        error_detail: None,
    }
}

fn snapshot_with_cluster(version: &str, names: &[&str]) -> Snapshot {
    let mut bundle = Resources::new(version.to_string());
    for (i, name) in names.iter().enumerate() {
        bundle
            .items
            .insert(name.to_string(), Resource::Cluster(vec![i as u8 + 1]));
    }
    let mut snapshot = Snapshot::new();
    snapshot.insert(CLUSTER.to_string(), bundle);
    snapshot
}

#[test]
fn test_stream_stores_node_for_future_requests() {
    let mut cache = SnapshotCache::new(false);
    let mut stream = Stream::new(CLUSTER.to_string(), 7);
    let req_with_node = plain_request(Some("foobar"), CLUSTER);
    let req_without_node = plain_request(None, CLUSTER);
    stream.handle_client_request(&mut cache, req_with_node, 1);
    stream.handle_client_request(&mut cache, req_without_node, 2);
    // Both requests reached the cache under the remembered node identity.
    let status = cache.node_status();
    assert_eq!(status.len(), 1);
    assert_eq!(status[0].0, "foobar");
}

#[test]
fn test_stream_forwards_type_url_if_not_present() {
    let mut cache = SnapshotCache::new(false);
    let mut stream = Stream::new(CLUSTER.to_string(), 7);
    let req_without_type_url = plain_request(Some("foobar"), "");
    let out = stream.handle_client_request(&mut cache, req_without_type_url, 1);
    assert!(matches!(out, RequestOutcome::NoResponse));
    // The pending watch carries the stream's type URL: installing a snapshot
    // fires it with a request whose type URL was defaulted.
    let fired = cache.set_snapshot(&"foobar".to_string(), snapshot_with_cluster("v1", &["c1"]));
    assert_eq!(fired.responses.len(), 1);
    assert_eq!(fired.responses[0].response.0.type_url, CLUSTER);
}

#[test]
fn test_stream_aborts_if_type_url_not_present_for_ads() {
    let mut cache = SnapshotCache::new(false);
    let mut stream = Stream::new(ANY_TYPE.to_string(), 7);
    let req_without_type_url = plain_request(Some("foobar"), "");
    let out = stream.handle_client_request(&mut cache, req_without_type_url, 1);
    assert!(matches!(out, RequestOutcome::MissingTypeUrl));
    // No watch was created and the node was not registered.
    assert_eq!(cache.node_status().len(), 0);
    assert_eq!(ADS_TYPE_URL_REQUIRED, "type URL is required for ADS");
}

#[test]
fn test_stream_cancels_watches_on_drop() {
    let mut cache = SnapshotCache::new(false);
    let mut stream = Stream::new(ANY_TYPE.to_string(), 7);
    let req1 = plain_request(Some("foobar"), CLUSTER);
    let req2 = plain_request(Some("foobar"), ENDPOINT);
    let out1 = stream.handle_client_request(&mut cache, req1, 1);
    let out2 = stream.handle_client_request(&mut cache, req2, 2);
    assert!(matches!(out1, RequestOutcome::NoResponse));
    assert!(matches!(out2, RequestOutcome::NoResponse));
    // Teardown: every registered watch is cancelled in the cache, so a
    // later snapshot fires none of them.
    watches::cancel_all(&stream.watches, &mut cache);
    let fired = cache.set_snapshot(&"foobar".to_string(), snapshot_with_cluster("v1", &["c1"]));
    assert_eq!(fired.responses.len(), 0);
    assert_eq!(fired.delta_responses.len(), 0);
}

#[test]
fn watches_fire_without_cancellation() {
    let mut cache = SnapshotCache::new(false);
    let mut stream = Stream::new(ANY_TYPE.to_string(), 7);
    stream.handle_client_request(&mut cache, plain_request(Some("foobar"), CLUSTER), 1);
    stream.handle_client_request(&mut cache, plain_request(Some("foobar"), ENDPOINT), 2);
    // Without teardown the snapshot fires the cluster watch; the endpoint
    // watch stays pending because the snapshot has no endpoint bundle and
    // its version label is still empty.
    let fired = cache.set_snapshot(&"foobar".to_string(), snapshot_with_cluster("v1", &["c1"]));
    assert_eq!(fired.responses.len(), 1);
    assert_eq!(fired.responses[0].sink, 7);
    assert_eq!(fired.responses[0].response.1.version_info, "v1");
}

#[test]
fn response_nonces_count_up_from_one() {
    let mut cache = SnapshotCache::new(false);
    let mut stream = Stream::new(CLUSTER.to_string(), 7);
    stream.handle_client_request(&mut cache, plain_request(Some("foobar"), CLUSTER), 1);
    let mut fired = cache.set_snapshot(&"foobar".to_string(), snapshot_with_cluster("v1", &["c1"]));
    assert_eq!(fired.responses.len(), 1);
    let fw = fired.responses.remove(0);
    let rep = stream.handle_watch_response(fw.response);
    assert_eq!(rep.nonce, "1");
    assert_eq!(rep.version_info, "v1");
    // A second round: ack, new watch, new snapshot, next nonce.
    let mut ack = plain_request(None, CLUSTER);
    ack.version_info = "v1".to_string();
    ack.response_nonce = "1".to_string();
    let out = stream.handle_client_request(&mut cache, ack, 2);
    assert!(matches!(out, RequestOutcome::NoResponse));
    let mut fired2 =
        cache.set_snapshot(&"foobar".to_string(), snapshot_with_cluster("v2", &["c1"]));
    assert_eq!(fired2.responses.len(), 1);
    let fw2 = fired2.responses.remove(0);
    let rep2 = stream.handle_watch_response(fw2.response);
    assert_eq!(rep2.nonce, "2");
    assert_eq!(rep2.version_info, "v2");
}

#[test]
fn stale_nack_leaves_watch_untouched() {
    let mut cache = SnapshotCache::new(false);
    let mut stream = Stream::new(ANY_TYPE.to_string(), 7);
    // Watches for two types; the cluster one fires and is forwarded,
    // taking the stream nonce to 1.
    stream.handle_client_request(&mut cache, plain_request(Some("foobar"), CLUSTER), 1);
    stream.handle_client_request(&mut cache, plain_request(Some("foobar"), ENDPOINT), 2);
    let mut fired =
        cache.set_snapshot(&"foobar".to_string(), snapshot_with_cluster("v1", &["c1"]));
    assert_eq!(fired.responses.len(), 1);
    stream.handle_watch_response(fired.responses.remove(0).response);
    // An ack re-watches the cluster type; the next snapshot fires it again,
    // so its registry entry records nonce 2.
    let mut ack = plain_request(None, CLUSTER);
    ack.version_info = "v1".to_string();
    let out = stream.handle_client_request(&mut cache, ack, 3);
    assert!(matches!(out, RequestOutcome::NoResponse));
    let mut fired2 =
        cache.set_snapshot(&"foobar".to_string(), snapshot_with_cluster("v2", &["c1"]));
    assert_eq!(fired2.responses.len(), 1);
    stream.handle_watch_response(fired2.responses.remove(0).response);
    // An endpoint bundle appears: the pending endpoint watch fires, moving
    // the stream nonce to 3 while the cluster entry still records 2.
    let mut snap3 = snapshot_with_cluster("v3", &["c1"]);
    let mut endpoints = Resources::new("e1".to_string());
    endpoints
        .items
        .insert("e".to_string(), Resource::Endpoint(vec![9]));
    snap3.insert(ENDPOINT.to_string(), endpoints);
    let mut fired3 = cache.set_snapshot(&"foobar".to_string(), snap3);
    assert_eq!(fired3.responses.len(), 1);
    stream.handle_watch_response(fired3.responses.remove(0).response);
    // A cluster request now looks like a stale nack (recorded nonce 2,
    // stream nonce 3): the stream leaves the watch state alone and the
    // cache sees no new watch, so a fresh snapshot fires nothing for the
    // cluster type.
    let out = stream.handle_client_request(&mut cache, plain_request(None, CLUSTER), 4);
    assert!(matches!(out, RequestOutcome::NoResponse));
    let fired4 =
        cache.set_snapshot(&"foobar".to_string(), snapshot_with_cluster("v4", &["c1"]));
    assert_eq!(fired4.responses.len(), 0);
}
