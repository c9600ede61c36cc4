//! End-to-end SotW scenarios: first watch and snapshot arrival, then the
//! ack into steady state.

use rust_control_plane::api::{DiscoveryRequest, Node};
use rust_control_plane::cache::SnapshotCache;
use rust_control_plane::snapshot::{Resource, Resources, Snapshot};
use rust_control_plane::stream::{RequestOutcome, Stream};
use rust_control_plane::type_url::CLUSTER;

fn request(node: Option<&str>, version: &str, nonce: &str, names: &[&str]) -> DiscoveryRequest {
    DiscoveryRequest {
        node: node.map(|id| Node { id: id.to_string() }),
        type_url: CLUSTER.to_string(),
        version_info: version.to_string(),
        resource_names: names.iter().map(|s| s.to_string()).collect(),
        response_nonce: nonce.to_string(),
        error_detail: None,
    }
}

fn cluster_snapshot(version: &str, items: &[(&str, &[u8])]) -> Snapshot {
    let mut bundle = Resources::new(version.to_string());
    for (name, bytes) in items {
        bundle
            .items
            .insert(name.to_string(), Resource::Cluster(bytes.to_vec()));
    }
    let mut snapshot = Snapshot::new();
    snapshot.insert(CLUSTER.to_string(), bundle);
    snapshot
}

#[test]
fn initial_sotw_then_snapshot_arrives() {
    let mut cache = SnapshotCache::new(false);
    let mut stream = Stream::new(CLUSTER.to_string(), 1);
    // Step 1: no snapshot yet, so the request sets one cache watch and
    // nothing is sent.
    let out = stream.handle_client_request(&mut cache, request(Some("N"), "", "", &[]), 1);
    assert!(matches!(out, RequestOutcome::NoResponse));
    // Step 2: the operator installs a snapshot; the watch fires and the
    // stream stamps the response with nonce "1".
    let mut fired = cache.set_snapshot(
        &"N".to_string(),
        cluster_snapshot("v1", &[("c1", &[0xC1])]),
    );
    assert_eq!(fired.responses.len(), 1);
    let rep = stream.handle_watch_response(fired.responses.remove(0).response);
    assert_eq!(rep.type_url, CLUSTER);
    assert_eq!(rep.version_info, "v1");
    assert_eq!(rep.nonce, "1");
    assert_eq!(rep.resources.len(), 1);
    assert_eq!(rep.resources[0].type_url, CLUSTER);
    assert_eq!(rep.resources[0].value, vec![0xC1]);
    assert!(!rep.canary);
    assert!(rep.control_plane.is_none());
}

#[test]
fn ack_reaches_steady_state() {
    let mut cache = SnapshotCache::new(false);
    let mut stream = Stream::new(CLUSTER.to_string(), 1);
    // The client explicitly tracks c1, so the ack later records that name.
    let out = stream.handle_client_request(&mut cache, request(Some("N"), "", "", &["c1"]), 1);
    assert!(matches!(out, RequestOutcome::NoResponse));
    let mut fired = cache.set_snapshot(
        &"N".to_string(),
        cluster_snapshot("v1", &[("c1", &[0xC1])]),
    );
    assert_eq!(fired.responses.len(), 1);
    let rep = stream.handle_watch_response(fired.responses.remove(0).response);
    assert_eq!(rep.nonce, "1");
    // The ack at the current version: the acknowledged names enter the
    // known set, a fresh watch is installed, nothing is sent.
    let out = stream.handle_client_request(&mut cache, request(Some("N"), "v1", "1", &["c1"]), 2);
    assert!(matches!(out, RequestOutcome::NoResponse));
    let known = stream
        .known_resource_names
        .known_resource_names(&CLUSTER.to_string())
        .unwrap();
    assert!(known.contains(&"c1".to_string()));
    // The fresh watch is live: the next snapshot fires it.
    let fired2 = cache.set_snapshot(
        &"N".to_string(),
        cluster_snapshot("v2", &[("c1", &[0xC2])]),
    );
    assert_eq!(fired2.responses.len(), 1);
}

#[test]
fn ack_with_empty_names_records_no_names() {
    // The stream records the *request's* resource names with each response;
    // a wildcard request (empty names) therefore leaves the known set empty
    // after the ack.
    let mut cache = SnapshotCache::new(false);
    let mut stream = Stream::new(CLUSTER.to_string(), 1);
    stream.handle_client_request(&mut cache, request(Some("N"), "", "", &[]), 1);
    let mut fired = cache.set_snapshot(
        &"N".to_string(),
        cluster_snapshot("v1", &[("c1", &[0xC1])]),
    );
    stream.handle_watch_response(fired.responses.remove(0).response);
    stream.handle_client_request(&mut cache, request(Some("N"), "v1", "1", &[]), 2);
    let known = stream
        .known_resource_names
        .known_resource_names(&CLUSTER.to_string())
        .unwrap();
    assert_eq!(known.len(), 0);
}
