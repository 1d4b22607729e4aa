//! The TLS gateway: a routing table fed by a file and by container events, a
//! shared request counter, and the course of one client connection.

pub mod balancer;
pub mod config;
pub mod discovery;
pub mod limiter;
pub mod registry;
pub mod session;
