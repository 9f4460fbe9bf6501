//! A reverse-proxy load balancer core: a consistent-hashing ring of backends
//! with virtual nodes, request dispatch over it, and membership changes.

pub mod config;
pub mod consistent_hashing;
pub mod ring_proofs;
pub mod load_balancer;
pub mod dispatch;
pub mod heartbeat;
