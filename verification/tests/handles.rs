//! Subscription-state handles, the string containers, and nonce rendering.

use rust_control_plane::api::DeltaDiscoveryRequest;
use rust_control_plane::decimal::u64_to_dec_string;
use rust_control_plane::stream_handle::{DeltaStreamHandle, StreamHandle};
use rust_control_plane::strmap::{StrMap, StrSet};

fn delta_req(subscribe: &[&str], unsubscribe: &[&str], initial: &[(&str, &str)]) -> DeltaDiscoveryRequest {
    let mut versions: StrMap<String> = StrMap::new();
    for (k, v) in initial {
        versions.insert(k.to_string(), v.to_string());
    }
    DeltaDiscoveryRequest {
        node: None,
        type_url: String::new(),
        resource_names_subscribe: subscribe.iter().map(|s| s.to_string()).collect(),
        resource_names_unsubscribe: unsubscribe.iter().map(|s| s.to_string()).collect(),
        initial_resource_versions: versions,
        response_nonce: String::new(),
        error_detail: None,
    }
}

#[test]
fn new_handle_is_wildcard_only_without_lists() {
    let wildcard = DeltaStreamHandle::new(&delta_req(&[], &[], &[]));
    assert!(wildcard.is_wildcard());
    assert!(wildcard.is_first());
    let explicit = DeltaStreamHandle::new(&delta_req(&["c1"], &[], &[]));
    assert!(!explicit.is_wildcard());
    assert!(explicit.is_first());
}

#[test]
fn new_handle_takes_initial_resource_versions() {
    let h = DeltaStreamHandle::new(&delta_req(&[], &[], &[("c1", "h1")]));
    assert_eq!(*h.resource_versions().get(&"c1".to_string()).unwrap(), "h1");
}

#[test]
fn subscribe_star_sets_wildcard() {
    let mut h = DeltaStreamHandle::new(&delta_req(&["c1"], &[], &[]));
    assert!(!h.is_wildcard());
    h.subscribe(&vec!["*".to_string(), "c2".to_string()]);
    assert!(h.is_wildcard());
    assert!(h.subscribed_resource_names().contains(&"c2".to_string()));
    assert!(!h.subscribed_resource_names().contains(&"*".to_string()));
}

#[test]
fn unsubscribe_star_clears_wildcard() {
    let mut h = DeltaStreamHandle::new(&delta_req(&[], &[], &[]));
    assert!(h.is_wildcard());
    h.unsubscribe(&vec!["*".to_string()]);
    assert!(!h.is_wildcard());
}

#[test]
fn unsubscribe_under_wildcard_clears_recorded_version() {
    // A name that is explicitly subscribed and then unsubscribed while the
    // wildcard is on gets its recorded version cleared, so a later explicit
    // re-subscription forces a re-send.
    let mut h = DeltaStreamHandle::new(&delta_req(&[], &[], &[("c1", "h1")]));
    h.subscribe(&vec!["c1".to_string()]);
    assert!(h.is_wildcard());
    h.unsubscribe(&vec!["c1".to_string()]);
    assert_eq!(*h.resource_versions().get(&"c1".to_string()).unwrap(), "");
    assert!(!h.subscribed_resource_names().contains(&"c1".to_string()));
}

#[test]
fn unsubscribe_without_wildcard_keeps_recorded_version() {
    let mut h = DeltaStreamHandle::new(&delta_req(&["c1"], &[], &[("c1", "h1")]));
    h.apply_subscriptions(&delta_req(&["c1"], &[], &[]));
    assert!(!h.is_first());
    h.unsubscribe(&vec!["c1".to_string()]);
    assert_eq!(*h.resource_versions().get(&"c1".to_string()).unwrap(), "h1");
}

#[test]
fn set_resource_versions_replaces_the_map() {
    let mut h = DeltaStreamHandle::new(&delta_req(&[], &[], &[("c1", "h1")]));
    let mut next: StrMap<String> = StrMap::new();
    next.insert("c2".to_string(), "h2".to_string());
    h.set_resource_versions(next);
    assert!(h.resource_versions().get(&"c1".to_string()).is_none());
    assert_eq!(*h.resource_versions().get(&"c2".to_string()).unwrap(), "h2");
}

#[test]
fn known_resource_names_accumulate() {
    let mut h = StreamHandle::new();
    let t = "t".to_string();
    assert!(h.known_resource_names(&t).is_none());
    h.add_known_resource_names(&t, &vec!["a".to_string(), "b".to_string()]);
    h.add_known_resource_names(&t, &vec!["b".to_string(), "c".to_string()]);
    let known = h.known_resource_names(&t).unwrap();
    assert_eq!(known.len(), 3);
    assert!(known.contains(&"a".to_string()));
    assert!(known.contains(&"b".to_string()));
    assert!(known.contains(&"c".to_string()));
}

#[test]
fn strmap_insert_get_remove() {
    let mut m: StrMap<u32> = StrMap::new();
    assert_eq!(m.len(), 0);
    m.insert("a".to_string(), 1);
    m.insert("b".to_string(), 2);
    m.insert("a".to_string(), 3);
    assert_eq!(m.len(), 2);
    assert_eq!(*m.get(&"a".to_string()).unwrap(), 3);
    assert_eq!(*m.get(&"b".to_string()).unwrap(), 2);
    assert!(m.get(&"c".to_string()).is_none());
    assert_eq!(m.remove(&"a".to_string()), Some(3));
    assert_eq!(m.remove(&"a".to_string()), None);
    assert_eq!(m.len(), 1);
    // Entries keep insertion order.
    assert_eq!(m.entries()[0].0, "b");
}

#[test]
fn strset_insert_contains_remove() {
    let mut s = StrSet::new();
    s.insert("x".to_string());
    s.insert("y".to_string());
    s.insert("x".to_string());
    assert_eq!(s.len(), 2);
    assert!(s.contains(&"x".to_string()));
    s.remove(&"x".to_string());
    assert!(!s.contains(&"x".to_string()));
    assert!(s.contains(&"y".to_string()));
}

#[test]
fn decimal_rendering_matches_display() {
    assert_eq!(u64_to_dec_string(0), "0");
    assert_eq!(u64_to_dec_string(7), "7");
    assert_eq!(u64_to_dec_string(10), "10");
    assert_eq!(u64_to_dec_string(12345), "12345");
    assert_eq!(u64_to_dec_string(1000000), "1000000");
}
