//! The closed registry of recognized resource type URLs.

use vstd::prelude::*;

verus! {

pub const ENDPOINT: &'static str = "type.googleapis.com/envoy.config.endpoint.v3.ClusterLoadAssignment";

pub const CLUSTER: &'static str = "type.googleapis.com/envoy.config.cluster.v3.Cluster";

pub const ROUTE: &'static str = "type.googleapis.com/envoy.config.route.v3.RouteConfiguration";

pub const VIRTUAL_HOST: &'static str = "type.googleapis.com/envoy.config.route.v3.VirtualHost";

pub const LISTENER: &'static str = "type.googleapis.com/envoy.config.listener.v3.Listener";

pub const SECRET: &'static str = "type.googleapis.com/envoy.extensions.transport_sockets.tls.v3.Secret";

pub const RUNTIME: &'static str = "type.googleapis.com/envoy.service.runtime.v3.Runtime";

pub const SCOPED_ROUTE: &'static str = "type.googleapis.com/envoy.config.route.v3.ScopedRouteConfiguration";

pub const EXTENSION_CONFIG: &'static str = "type.googleapis.com/envoy.config.core.v3.TypedExtensionConfig";

/// The aggregated-discovery multiplex: the empty type URL.
pub const ANY_TYPE: &'static str = "";

} // verus!
