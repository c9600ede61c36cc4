//! The delta stream machine driven against a real cache: wildcard first
//! response, re-send on change, and removal on snapshot shrink.

use rust_control_plane::api::{DeltaDiscoveryRequest, Node};
use rust_control_plane::cache::SnapshotCache;
use rust_control_plane::delta_stream::{DeltaRequestOutcome, DeltaStream};
use rust_control_plane::delta_watches;
use rust_control_plane::snapshot::{hash_resource, Resource, Resources, Snapshot};
use rust_control_plane::strmap::StrMap;
use rust_control_plane::type_url::{ANY_TYPE, CLUSTER};

fn delta_request(
    node: Option<&str>,
    type_url: &str,
    subscribe: &[&str],
    unsubscribe: &[&str],
) -> DeltaDiscoveryRequest {
    DeltaDiscoveryRequest {
        node: node.map(|id| Node { id: id.to_string() }),
        type_url: type_url.to_string(),
        resource_names_subscribe: subscribe.iter().map(|s| s.to_string()).collect(),
        resource_names_unsubscribe: unsubscribe.iter().map(|s| s.to_string()).collect(),
        initial_resource_versions: StrMap::new(),
        response_nonce: String::new(),
        error_detail: None,
    }
}

fn cluster_snapshot(version: &str, items: &[(&str, &[u8])]) -> Snapshot {
    let mut bundle = Resources::new(version.to_string());
    for (name, bytes) in items {
        bundle
            .items
            .insert(name.to_string(), Resource::Cluster(bytes.to_vec()));
    }
    let mut snapshot = Snapshot::new();
    snapshot.insert(CLUSTER.to_string(), bundle);
    snapshot
}

#[test]
fn delta_wildcard_first_response() {
    let c1 = Resource::Cluster(vec![1]);
    let c2 = Resource::Cluster(vec![2]);
    let h1 = hash_resource(&c1);
    let h2 = hash_resource(&c2);
    let mut cache = SnapshotCache::new(false);
    let fired = cache.set_snapshot(
        &"N".to_string(),
        cluster_snapshot("v1", &[("c1", &[1]), ("c2", &[2])]),
    );
    assert_eq!(fired.responses.len(), 0);
    let mut stream = DeltaStream::new(CLUSTER.to_string(), 9);
    let out = stream.handle_client_request(&mut cache, delta_request(Some("N"), CLUSTER, &[], &[]), 1);
    let queued = match out {
        DeltaRequestOutcome::Queued(q) => q,
        _ => panic!("a wildcard first exchange must be answered"),
    };
    let rep = stream.handle_watch_response(queued);
    assert_eq!(rep.nonce, "1");
    assert_eq!(rep.type_url, CLUSTER);
    assert_eq!(rep.removed_resources.len(), 0);
    assert_eq!(rep.resources.len(), 2);
    assert_eq!(rep.resources[0].name, "c1");
    assert_eq!(rep.resources[0].version, h1);
    assert_eq!(rep.resources[0].resource.type_url, CLUSTER);
    assert_eq!(rep.resources[0].resource.value, vec![1]);
    assert_eq!(rep.resources[1].name, "c2");
    assert_eq!(rep.resources[1].version, h2);
    // The stream's recorded versions became the response's version map.
    let state = stream.states.get(&CLUSTER.to_string()).unwrap();
    assert_eq!(*state.resource_versions().get(&"c1".to_string()).unwrap(), h1);
    assert_eq!(*state.resource_versions().get(&"c2".to_string()).unwrap(), h2);
}

#[test]
fn delta_remove_on_snapshot_shrink() {
    let c1_new = Resource::Cluster(vec![7]);
    let h1_new = hash_resource(&c1_new);
    let mut cache = SnapshotCache::new(false);
    cache.set_snapshot(
        &"N".to_string(),
        cluster_snapshot("v1", &[("c1", &[1]), ("c2", &[2])]),
    );
    let mut stream = DeltaStream::new(CLUSTER.to_string(), 9);
    let out = stream.handle_client_request(&mut cache, delta_request(Some("N"), CLUSTER, &[], &[]), 1);
    let queued = match out {
        DeltaRequestOutcome::Queued(q) => q,
        _ => panic!("a wildcard first exchange must be answered"),
    };
    stream.handle_watch_response(queued);
    // The client acks; nothing changed, so a watch is stored.
    let out = stream.handle_client_request(&mut cache, delta_request(None, CLUSTER, &[], &[]), 2);
    assert!(matches!(out, DeltaRequestOutcome::NoResponse));
    // The operator shrinks the snapshot: c2 gone, c1 changed.
    let mut fired = cache.set_snapshot(&"N".to_string(), cluster_snapshot("v2", &[("c1", &[7])]));
    assert_eq!(fired.delta_responses.len(), 1);
    assert_eq!(fired.delta_responses[0].sink, 9);
    let rep = stream.handle_watch_response(fired.delta_responses.remove(0).response);
    assert_eq!(rep.nonce, "2");
    assert_eq!(rep.resources.len(), 1);
    assert_eq!(rep.resources[0].name, "c1");
    assert_eq!(rep.resources[0].version, h1_new);
    assert_eq!(rep.removed_resources, vec!["c2".to_string()]);
    let state = stream.states.get(&CLUSTER.to_string()).unwrap();
    assert_eq!(
        *state.resource_versions().get(&"c1".to_string()).unwrap(),
        h1_new
    );
    assert!(state.resource_versions().get(&"c2".to_string()).is_none());
}

#[test]
fn delta_explicit_subscription_tracks_named_resources() {
    let mut cache = SnapshotCache::new(false);
    cache.set_snapshot(
        &"N".to_string(),
        cluster_snapshot("v1", &[("c1", &[1]), ("c2", &[2])]),
    );
    let mut stream = DeltaStream::new(CLUSTER.to_string(), 9);
    let out =
        stream.handle_client_request(&mut cache, delta_request(Some("N"), CLUSTER, &["c1"], &[]), 1);
    let queued = match out {
        DeltaRequestOutcome::Queued(q) => q,
        _ => panic!("a new subscription with data must be answered"),
    };
    let rep = stream.handle_watch_response(queued);
    assert_eq!(rep.resources.len(), 1);
    assert_eq!(rep.resources[0].name, "c1");
    let state = stream.states.get(&CLUSTER.to_string()).unwrap();
    assert!(!state.is_wildcard());
    assert!(!state.is_first());
    assert!(state
        .subscribed_resource_names()
        .contains(&"c1".to_string()));
}

#[test]
fn delta_ads_requires_type_url() {
    let mut cache = SnapshotCache::new(false);
    let mut stream = DeltaStream::new(ANY_TYPE.to_string(), 9);
    let out = stream.handle_client_request(&mut cache, delta_request(Some("N"), "", &[], &[]), 1);
    assert!(matches!(out, DeltaRequestOutcome::MissingTypeUrl));
    assert_eq!(cache.node_status().len(), 0);
}

#[test]
fn delta_teardown_cancels_watches() {
    let mut cache = SnapshotCache::new(false);
    cache.set_snapshot(&"N".to_string(), cluster_snapshot("v1", &[("c1", &[1])]));
    let mut stream = DeltaStream::new(CLUSTER.to_string(), 9);
    let out = stream.handle_client_request(&mut cache, delta_request(Some("N"), CLUSTER, &[], &[]), 1);
    let queued = match out {
        DeltaRequestOutcome::Queued(q) => q,
        _ => panic!("first exchange must be answered"),
    };
    stream.handle_watch_response(queued);
    // The ack leaves a pending delta watch; teardown cancels it, so a new
    // snapshot no longer fires it.
    let out = stream.handle_client_request(&mut cache, delta_request(None, CLUSTER, &[], &[]), 2);
    assert!(matches!(out, DeltaRequestOutcome::NoResponse));
    delta_watches::cancel_all(&stream.watches, &mut cache);
    let fired = cache.set_snapshot(&"N".to_string(), cluster_snapshot("v2", &[("c1", &[9])]));
    assert_eq!(fired.delta_responses.len(), 0);
}
