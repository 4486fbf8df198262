//! Outbound transaction relay core: a keyed pool of reusable peer
//! connections, a token-bucket byte budget, and a leader-addressed,
//! rate-limited packet forwarder.
//!
//! The network itself (sockets, handshakes, the leader schedule) lives
//! outside this crate; callers resolve leader addresses and drive the
//! transport, while everything this crate decides — pool bounds and
//! eviction, protocol selection, budget admission, forwarding order and
//! success accounting — is stated in contracts and proved.

pub mod connection_cache;
pub mod forwarder;
pub mod rate_budget;
pub mod transaction_buffer;
pub mod transport;
