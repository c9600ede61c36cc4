use rust_control_plane::type_url::{
    ANY_TYPE, CLUSTER, ENDPOINT, EXTENSION_CONFIG, LISTENER, ROUTE, RUNTIME, SCOPED_ROUTE, SECRET,
    VIRTUAL_HOST,
};

#[test]
fn prefix_concatinates_valid_type() {
    assert_eq!(
        CLUSTER,
        "type.googleapis.com/envoy.config.cluster.v3.Cluster"
    )
}

#[test]
fn all_type_urls_share_the_prefix() {
    for url in [
        ENDPOINT,
        CLUSTER,
        ROUTE,
        VIRTUAL_HOST,
        LISTENER,
        SECRET,
        RUNTIME,
        SCOPED_ROUTE,
        EXTENSION_CONFIG,
    ] {
        assert!(url.starts_with("type.googleapis.com/"));
    }
    assert_eq!(ANY_TYPE, "");
}
