//! The schema of the proxy's configuration.

use crate::text;
use vstd::prelude::*;

verus! {

/// The configuration of the whole proxy. A changed file is read into a new value
/// that takes the place of the old one.
pub struct ProxyConfig {
    /// The primary HTTP listener.
    pub server: ServerConfig,
    /// The administrative API, if there is one.
    pub admin: Option<AdminConfig>,
    /// Token-bucket rate limiting, if it is switched on.
    pub rate_limit: Option<RateLimitConfig>,
    /// The HTTP clusters.
    pub clusters: Vec<ClusterConfig>,
    /// The TCP listeners.
    pub tcp_servers: Vec<TcpServerConfig>,
}

/// A TCP listener and its backends.
pub struct TcpServerConfig {
    /// The local IP address to listen on.
    pub bind_addr: String,
    /// The port to listen on.
    pub port: u16,
    /// The addresses of the backends.
    pub targets: Vec<String>,
}

/// The settings of the token buckets.
#[derive(Clone, Copy, Debug, PartialEq, Eq, Structural)]
pub struct RateLimitConfig {
    /// The tokens that a bucket can hold, as the bits of a double.
    pub capacity: u64,
    /// The tokens that a bucket gains per second, as the bits of a double.
    pub refill_rate: u64,
}

/// The primary HTTP listener.
pub struct ServerConfig {
    /// The local IP address to listen on.
    pub bind_addr: String,
    /// The port to listen on.
    pub port: u16,
    /// Where the certificate and key are, if the listener accepts HTTPS.
    pub tls: Option<TlsConfig>,
}

/// Where the certificate and the private key are.
pub struct TlsConfig {
    /// The path of the certificate chain, in PEM format.
    pub cert_path: String,
    /// The path of the private key, in PEM format.
    pub key_path: String,
}

/// The administrative API.
pub struct AdminConfig {
    /// The local IP address to listen on.
    pub bind_addr: String,
    /// The port to listen on.
    pub port: u16,
}

/// A cluster of backends and its resilience policies.
pub struct ClusterConfig {
    /// The name of the cluster.
    pub name: String,
    /// The protocol of the cluster.
    pub mode: ProxyMode,
    /// The addresses of the backends.
    pub targets: Vec<String>,
    /// How often a failed request is tried again.
    pub max_retries: usize,
    /// Whether clients are pinned to backends by the hash of their address.
    pub sticky_sessions: bool,
}

/// The protocol of a cluster.
#[derive(Clone, Copy, Debug, PartialEq, Eq, Structural)]
pub enum ProxyMode {
    /// Raw TCP streams.
    Tcp,
    /// HTTP requests and responses.
    Http,
}

impl TcpServerConfig {
    /// The endpoint that the listener is bound to.
    pub fn endpoint(&self) -> (r: String)
        ensures
            r@ == text::endpoint(self.bind_addr@, self.port),
    {
        text::endpoint_text(self.bind_addr.as_str(), self.port)
    }
}

impl ServerConfig {
    /// The endpoint that the listener is bound to.
    pub fn endpoint(&self) -> (r: String)
        ensures
            r@ == text::endpoint(self.bind_addr@, self.port),
    {
        text::endpoint_text(self.bind_addr.as_str(), self.port)
    }
}

impl AdminConfig {
    /// The endpoint that the API is bound to.
    pub fn endpoint(&self) -> (r: String)
        ensures
            r@ == text::endpoint(self.bind_addr@, self.port),
    {
        text::endpoint_text(self.bind_addr.as_str(), self.port)
    }
}

/// Every listener is bound to its own address and port, with a colon between them and the
/// port in decimal notation.
pub proof fn listeners_are_bound_to_their_ports(
    tcp: TcpServerConfig,
    server: ServerConfig,
    admin: AdminConfig,
    tcp_at: String,
    server_at: String,
    admin_at: String,
)
    requires
        call_ensures(TcpServerConfig::endpoint, (&tcp,), tcp_at),
        call_ensures(ServerConfig::endpoint, (&server,), server_at),
        call_ensures(AdminConfig::endpoint, (&admin,), admin_at),
    ensures
        tcp_at@ == tcp.bind_addr@ + seq![':'] + text::decimal(tcp.port as nat),
        server_at@ == server.bind_addr@ + seq![':'] + text::decimal(server.port as nat),
        admin_at@ == admin.bind_addr@ + seq![':'] + text::decimal(admin.port as nat),
{
}

} // verus!
