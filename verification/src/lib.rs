//! Core of an xDS control plane: a per-node snapshot cache with watches, and
//! the state-of-the-world and delta (incremental) discovery stream machines
//! that drive it.
//!
//! The crate is transport-free: stream machines consume already-decoded
//! requests and hand back the responses to forward, so an RPC layer can wrap
//! them with channels and sinks of its choosing.

pub mod api;
pub mod cache;
pub mod decimal;
pub mod delta;
pub mod delta_stream;
pub mod delta_watches;
pub mod digest;
pub mod laws;
pub mod snapshot;
pub mod stream_handle;
pub mod stream;
pub mod strmap;
pub mod type_url;
pub mod watch;
pub mod watches;
