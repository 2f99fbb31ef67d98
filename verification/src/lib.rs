//! A verified core for a caching, failover-capable JSON-RPC reverse proxy.
//!
//! The crate models JSON values and the JSON-RPC wire format, computes cache
//! fingerprints, parses rate-limit descriptions, maintains the TTL response
//! cache, and drives the per-request dispatch state machine. All I/O (the HTTP
//! listener, the upstream client, the token-bucket limiters) lives outside and
//! feeds the state machine with events.

pub mod cache;
pub mod config;
pub mod engine;
pub mod json;
pub mod ratelimit;
pub mod rpc;
