//! Cache operations exercised directly: fetch, the ADS gate, immediate
//! responses versus watches, hashing, and version-map idempotence.

use rust_control_plane::api::{DiscoveryRequest, Node};
use rust_control_plane::cache::{
    check_ads_consistency, hash_id, is_requesting_new_resources, CreateWatchOutcome, FetchError,
    SnapshotCache,
};
use rust_control_plane::snapshot::{hash_resource, Resource, Resources, Snapshot};
use rust_control_plane::stream_handle::StreamHandle;
use rust_control_plane::type_url::CLUSTER;

fn request(node: &str, type_url: &str, version: &str, names: &[&str]) -> DiscoveryRequest {
    DiscoveryRequest {
        node: Some(Node { id: node.to_string() }),
        type_url: type_url.to_string(),
        version_info: version.to_string(),
        resource_names: names.iter().map(|s| s.to_string()).collect(),
        response_nonce: String::new(),
        error_detail: None,
    }
}

fn cluster_snapshot(version: &str, items: &[(&str, &[u8])]) -> Snapshot {
    let mut bundle = Resources::new(version.to_string());
    for (name, bytes) in items {
        bundle
            .items
            .insert(name.to_string(), Resource::Cluster(bytes.to_vec()));
    }
    let mut snapshot = Snapshot::new();
    snapshot.insert(CLUSTER.to_string(), bundle);
    snapshot
}

#[test]
fn fetch_not_found_without_snapshot() {
    let cache = SnapshotCache::new(false);
    let r = cache.fetch(&request("N", CLUSTER, "", &[]), &CLUSTER.to_string());
    assert_eq!(r.err(), Some(FetchError::NotFound));
}

#[test]
fn fetch_version_up_to_date_after_set_snapshot() {
    let mut cache = SnapshotCache::new(false);
    cache.set_snapshot(&"N".to_string(), cluster_snapshot("v1", &[("c1", &[1])]));
    let r = cache.fetch(&request("N", CLUSTER, "v1", &[]), &CLUSTER.to_string());
    assert_eq!(r.err(), Some(FetchError::VersionUpToDate));
}

#[test]
fn fetch_returns_current_resources() {
    let mut cache = SnapshotCache::new(false);
    cache.set_snapshot(
        &"N".to_string(),
        cluster_snapshot("v2", &[("c1", &[1]), ("c2", &[2])]),
    );
    let rep = cache
        .fetch(&request("N", CLUSTER, "v1", &[]), &CLUSTER.to_string())
        .unwrap();
    assert_eq!(rep.version_info, "v2");
    assert_eq!(rep.type_url, CLUSTER);
    assert_eq!(rep.nonce, "");
    assert_eq!(rep.resources.len(), 2);
    assert_eq!(rep.resources[0].type_url, CLUSTER);
    assert_eq!(rep.resources[0].value, vec![1]);
    // A named filter keeps request order and drops missing names.
    let rep = cache
        .fetch(
            &request("N", CLUSTER, "v1", &["c2", "missing", "c1"]),
            &CLUSTER.to_string(),
        )
        .unwrap();
    assert_eq!(rep.resources.len(), 2);
    assert_eq!(rep.resources[0].value, vec![2]);
    assert_eq!(rep.resources[1].value, vec![1]);
}

#[test]
fn create_watch_responds_with_new_version() {
    let mut cache = SnapshotCache::new(false);
    cache.set_snapshot(&"N".to_string(), cluster_snapshot("v1", &[("c1", &[1])]));
    let handle = StreamHandle::new();
    let out = cache.create_watch(&request("N", CLUSTER, "", &[]), 3, &handle, 1);
    match out {
        CreateWatchOutcome::Respond((req, rep)) => {
            assert_eq!(req.type_url, CLUSTER);
            assert_eq!(rep.version_info, "v1");
            assert_eq!(rep.resources.len(), 1);
        },
        CreateWatchOutcome::WatchSet(_) => panic!("an outdated client must be answered"),
    }
}

#[test]
fn create_watch_waits_at_current_version() {
    let mut cache = SnapshotCache::new(false);
    cache.set_snapshot(&"N".to_string(), cluster_snapshot("v1", &[("c1", &[1])]));
    let handle = StreamHandle::new();
    let out = cache.create_watch(&request("N", CLUSTER, "v1", &[]), 3, &handle, 1);
    match out {
        CreateWatchOutcome::WatchSet(id) => {
            assert_eq!(id.node_id, "N");
        },
        CreateWatchOutcome::Respond(_) => panic!("a current client must wait"),
    }
}

#[test]
fn ads_gate_defers_inconsistent_response() {
    // With ads on, a request naming only c1 against a bundle that also
    // holds c2 is not answered; without ads it is.
    let mut ads_cache = SnapshotCache::new(true);
    ads_cache.set_snapshot(
        &"N".to_string(),
        cluster_snapshot("v1", &[("c1", &[1]), ("c2", &[2])]),
    );
    let handle = StreamHandle::new();
    let out = ads_cache.create_watch(&request("N", CLUSTER, "v0", &["c1"]), 3, &handle, 1);
    assert!(matches!(out, CreateWatchOutcome::WatchSet(_)));

    let mut plain_cache = SnapshotCache::new(false);
    plain_cache.set_snapshot(
        &"N".to_string(),
        cluster_snapshot("v1", &[("c1", &[1]), ("c2", &[2])]),
    );
    let out = plain_cache.create_watch(&request("N", CLUSTER, "v0", &["c1"]), 3, &handle, 1);
    match out {
        CreateWatchOutcome::Respond((_, rep)) => {
            // The response itself is still filtered to the requested names.
            assert_eq!(rep.resources.len(), 1);
            assert_eq!(rep.resources[0].value, vec![1]);
        },
        CreateWatchOutcome::WatchSet(_) => panic!("without ads the response is immediate"),
    }
}

#[test]
fn check_ads_consistency_flags_unrequested_items() {
    let snapshot = cluster_snapshot("v1", &[("c1", &[1]), ("c2", &[2])]);
    let bundle = snapshot.resources(&CLUSTER.to_string());
    assert!(!check_ads_consistency(
        &request("N", CLUSTER, "", &["c1"]),
        bundle
    ));
    assert!(check_ads_consistency(
        &request("N", CLUSTER, "", &["c1", "c2"]),
        bundle
    ));
    assert!(check_ads_consistency(&request("N", CLUSTER, "", &[]), bundle));
    assert!(check_ads_consistency(
        &request("N", CLUSTER, "", &["c1"]),
        None
    ));
}

#[test]
fn requesting_new_resources_needs_unknown_present_name() {
    let snapshot = cluster_snapshot("v1", &[("c1", &[1])]);
    let bundle = snapshot.resources(&CLUSTER.to_string());
    let mut handle = StreamHandle::new();
    let req = request("N", CLUSTER, "", &["c1"]);
    // No known names recorded for the type yet: nothing counts as new.
    assert!(!is_requesting_new_resources(
        &req,
        bundle,
        handle.known_resource_names(&CLUSTER.to_string())
    ));
    // With an empty known set recorded, c1 is new because the bundle has it.
    handle.add_known_resource_names(&CLUSTER.to_string(), &Vec::new());
    assert!(is_requesting_new_resources(
        &req,
        bundle,
        handle.known_resource_names(&CLUSTER.to_string())
    ));
    // Once acknowledged, it is no longer new.
    handle.add_known_resource_names(&CLUSTER.to_string(), &vec!["c1".to_string()]);
    assert!(!is_requesting_new_resources(
        &req,
        bundle,
        handle.known_resource_names(&CLUSTER.to_string())
    ));
}

#[test]
fn hash_resource_is_sha256_hex() {
    assert_eq!(
        hash_resource(&Resource::Cluster(Vec::new())),
        "e3b0c44298fc1c149afbf4c8996fb92427ae41e4649b934ca495991b7852b855"
    );
    assert_eq!(
        hash_resource(&Resource::Cluster(vec![1])),
        "4bf5122f344554c53bde2ebb8cd2b7e3d1600ad631c385a5d7cce23c7785459a"
    );
    assert_eq!(
        hash_resource(&Resource::Listener(vec![1, 2, 3])),
        "039058c6f2c0cb492c533b0a4d14ef77cc0f78abccced5287d84a1a2011cfb81"
    );
    assert_eq!(hash_resource(&Resource::Runtime(vec![5])).len(), 64);
}

#[test]
fn into_any_carries_category_url_and_bytes() {
    let any = Resource::Cluster(vec![1, 2]).into_any();
    assert_eq!(any.type_url, CLUSTER);
    assert_eq!(any.value, vec![1, 2]);
    let any = Resource::Secret(vec![3]).into_any();
    assert_eq!(
        any.type_url,
        "type.googleapis.com/envoy.extensions.transport_sockets.tls.v3.Secret"
    );
}

#[test]
fn build_version_map_is_idempotent() {
    let mut snapshot = cluster_snapshot("v1", &[("c1", &[1]), ("c2", &[2])]);
    assert!(snapshot.version_map.is_none());
    snapshot.build_version_map();
    let vm = snapshot.version_map.as_ref().unwrap();
    let inner = vm.get(&CLUSTER.to_string()).unwrap();
    assert_eq!(inner.len(), 2);
    assert_eq!(
        *inner.get(&"c1".to_string()).unwrap(),
        hash_resource(&Resource::Cluster(vec![1]))
    );
    assert_eq!(
        *inner.get(&"c2".to_string()).unwrap(),
        hash_resource(&Resource::Cluster(vec![2]))
    );
    // Building again is a no-op: same entries, same hashes.
    snapshot.build_version_map();
    let vm2 = snapshot.version_map.as_ref().unwrap();
    let inner2 = vm2.get(&CLUSTER.to_string()).unwrap();
    assert_eq!(inner2.len(), 2);
    assert_eq!(
        *inner2.get(&"c1".to_string()).unwrap(),
        hash_resource(&Resource::Cluster(vec![1]))
    );
}

#[test]
fn hash_id_uses_node_id_or_empty() {
    assert_eq!(hash_id(&Some(Node { id: "abc".to_string() })), "abc");
    assert_eq!(hash_id(&None), "");
}

#[test]
fn cancel_watch_is_idempotent() {
    let mut cache = SnapshotCache::new(false);
    let handle = StreamHandle::new();
    let out = cache.create_watch(&request("N", CLUSTER, "", &[]), 3, &handle, 1);
    let id = match out {
        CreateWatchOutcome::WatchSet(id) => id,
        CreateWatchOutcome::Respond(_) => panic!("no snapshot: a watch must be set"),
    };
    cache.cancel_watch(&id);
    cache.cancel_watch(&id);
    let fired = cache.set_snapshot(&"N".to_string(), cluster_snapshot("v1", &[("c1", &[1])]));
    assert_eq!(fired.responses.len(), 0);
}
