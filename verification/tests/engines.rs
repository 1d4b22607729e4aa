use iron_proxy::addr::{hash_ip, IpAddr, SocketAddr};
use iron_proxy::config::{
    AdminConfig, ClusterConfig, ProxyConfig, ProxyMode, RateLimitConfig, ServerConfig,
    TcpServerConfig,
};
use iron_proxy::handler::{Decision, Exchange, ExchangeAction, ExchangeEvent, Stage, is_stripped};
use iron_proxy::health::{Endpoint, HealthRegistry, HealthStatus};
use iron_proxy::lifecycle::{Listener, ListenerAction, ListenerEvent};
use iron_proxy::proxy_l4::L4Proxy;
use iron_proxy::proxy_l7::{needs_reload, L7Proxy, WatchEvent};
use iron_proxy::router::ConnectionTracker;
use iron_proxy::startup::{backends_to_register, http_addrs, http_targets, tcp_targets};

fn s(n: u16) -> SocketAddr {
    SocketAddr::V4 { ip: 0x7f00_0001, port: n }
}

fn name(n: u16) -> String {
    format!("127.0.0.1:{}", n)
}

fn backend(n: u16) -> Endpoint {
    Endpoint { addr: s(n), text: name(n) }
}

fn backends(ports: &[u16]) -> HealthRegistry {
    HealthRegistry::new(&ports.iter().map(|n| backend(*n)).collect())
}

fn cluster(ports: &[u16], sticky_sessions: bool, max_retries: usize) -> ClusterConfig {
    ClusterConfig {
        name: "web".to_string(),
        mode: ProxyMode::Http,
        targets: ports.iter().map(|n| name(*n)).collect(),
        max_retries,
        sticky_sessions,
    }
}

fn config(clusters: Vec<ClusterConfig>, rate_limit: Option<RateLimitConfig>) -> ProxyConfig {
    ProxyConfig {
        server: ServerConfig { bind_addr: "0.0.0.0".to_string(), port: 8080, tls: None },
        admin: None,
        rate_limit,
        clusters,
        tcp_servers: vec![],
    }
}

fn tcp(ports: &[u16]) -> TcpServerConfig {
    TcpServerConfig {
        bind_addr: "127.0.0.1".to_string(),
        port: 6000,
        targets: ports.iter().map(|n| name(*n)).collect(),
    }
}

fn cost(active: usize, latency: u64) -> u64 {
    ((active as f64 + 1.0) * f64::from_bits(latency)).to_bits()
}

fn accrue(tokens: u64, rate: u64, nanos: u128) -> u64 {
    (f64::from_bits(tokens) + nanos as f64 / 1e9 * f64::from_bits(rate)).to_bits()
}

fn spend(tokens: u64, amount: u64) -> u64 {
    (f64::from_bits(tokens) - f64::from_bits(amount)).to_bits()
}

#[test]
fn listeners_are_bound_to_their_endpoints() {
    assert_eq!(tcp(&[]).endpoint(), "127.0.0.1:6000");
    assert_eq!(config(vec![], None).server.endpoint(), "0.0.0.0:8080");
    assert_eq!(AdminConfig { bind_addr: "::1".to_string(), port: 1 }.endpoint(), "::1:1");
}

#[test]
fn tcp_connections_go_to_the_least_loaded_target() {
    let mut registry = backends(&[1, 2, 3]);
    let mut tracker = ConnectionTracker::new();
    let proxy = L4Proxy::new(tcp(&[1, 2]));
    assert_eq!(proxy.open_at(&registry, &mut tracker, 5), Some(s(1)));
    assert_eq!(tracker.load(s(1)), 1);
    assert_eq!(proxy.open_at(&registry, &mut tracker, 5), Some(s(2)));
    assert_eq!(proxy.open_at(&registry, &mut tracker, 5), Some(s(1)));
    assert_eq!(proxy.get_next_backend(&registry, &tracker), Some(s(2)));
    registry.set_status(s(2), HealthStatus::Dead);
    assert_eq!(proxy.get_next_backend(&registry, &tracker), Some(s(1)));
    registry.set_status(s(1), HealthStatus::Dead);
    assert_eq!(proxy.get_next_backend(&registry, &tracker), None);
    assert_eq!(proxy.open(&registry, &mut tracker), Ok(None));
    assert_eq!(tracker.load(s(3)), 0);
}

#[test]
fn an_opened_connection_is_counted_now() {
    let registry = backends(&[4]);
    let mut tracker = ConnectionTracker::new();
    let proxy = L4Proxy::new(tcp(&[4]));
    assert_eq!(proxy.open(&registry, &mut tracker), Ok(Some(s(4))));
    assert_eq!(tracker.load(s(4)), 1);
    tracker.dec(s(4));
    assert_eq!(tracker.load(s(4)), 0);
}

#[test]
fn http_requests_go_to_the_first_cluster() {
    let registry = backends(&[1, 2, 3]);
    let mut tracker = ConnectionTracker::new();
    let ip = IpAddr::V4(5);
    let proxy = L7Proxy::new(config(vec![cluster(&[2, 3], false, 3), cluster(&[1], false, 9)], None));
    assert_eq!(proxy.get_next_backend(ip, &registry, &tracker, cost), Some(s(2)));
    tracker.inc_at(s(2), 0);
    assert_eq!(proxy.get_next_backend(ip, &registry, &tracker, cost), Some(s(3)));
    tracker.inc_at(s(3), 0);
    tracker.inc_at(s(3), 0);
    assert_eq!(proxy.get_next_backend(ip, &registry, &tracker, cost), Some(s(2)));
    assert_eq!(proxy.max_retries(), 3);
}

#[test]
fn http_requests_without_targets_go_nowhere() {
    let mut registry = backends(&[1]);
    let tracker = ConnectionTracker::new();
    let ip = IpAddr::V4(5);
    let none = L7Proxy::new(config(vec![], None));
    assert_eq!(none.get_next_backend(ip, &registry, &tracker, cost), None);
    assert_eq!(none.max_retries(), 0);
    let proxy = L7Proxy::new(config(vec![cluster(&[1], true, 0)], None));
    assert_eq!(proxy.get_next_backend(ip, &registry, &tracker, cost), Some(s(1)));
    registry.set_status(s(1), HealthStatus::Dead);
    assert_eq!(proxy.get_next_backend(ip, &registry, &tracker, cost), None);
}

#[test]
fn sticky_clients_stay_whatever_the_load() {
    let registry = backends(&[3, 1, 2]);
    let mut tracker = ConnectionTracker::new();
    let proxy = L7Proxy::new(config(vec![cluster(&[1, 2, 3], true, 0)], None));
    let ip = IpAddr::V4(0x0a01_0203);
    let expected = s((hash_ip(ip) as usize % 3) as u16 + 1);
    assert_eq!(proxy.get_next_backend(ip, &registry, &tracker, cost), Some(expected));
    for _ in 0..10 {
        tracker.inc_at(expected, 0);
    }
    assert_eq!(proxy.get_next_backend(ip, &registry, &tracker, cost), Some(expected));
}

#[test]
fn clients_are_permitted_while_they_have_tokens() {
    let limit = RateLimitConfig { capacity: 2.0f64.to_bits(), refill_rate: 0.0f64.to_bits() };
    let mut proxy = L7Proxy::new(config(vec![], Some(limit)));
    let ip = IpAddr::V4(1);
    assert!(proxy.is_permitted(ip, accrue, spend));
    assert!(proxy.is_permitted(ip, accrue, spend));
    assert!(!proxy.is_permitted(ip, accrue, spend));
    assert!(proxy.is_permitted(IpAddr::V4(2), accrue, spend));
    let mut unlimited = L7Proxy::new(config(vec![], None));
    for _ in 0..100 {
        assert!(unlimited.is_permitted(ip, accrue, spend));
    }
}

#[test]
fn a_reload_replaces_the_rules_and_a_failed_one_keeps_them() {
    let registry = backends(&[1, 2]);
    let tracker = ConnectionTracker::new();
    let ip = IpAddr::V4(5);
    let mut proxy = L7Proxy::new(config(vec![cluster(&[1], false, 0)], None));
    assert!(!proxy.reload(None));
    assert_eq!(proxy.get_next_backend(ip, &registry, &tracker, cost), Some(s(1)));
    assert!(proxy.reload(Some(config(vec![cluster(&[2], false, 7)], None))));
    assert_eq!(proxy.get_next_backend(ip, &registry, &tracker, cost), Some(s(2)));
    assert_eq!(proxy.max_retries(), 7);
}

#[test]
fn only_a_modification_asks_for_a_reload() {
    assert!(needs_reload(WatchEvent::Modified));
    assert!(!needs_reload(WatchEvent::Other));
    assert!(!needs_reload(WatchEvent::Failed));
}

#[test]
fn a_listener_serves_until_it_is_told_to_stop() {
    let mut listener = Listener::new();
    assert_eq!(listener.on(ListenerEvent::Accepted), ListenerAction::Serve);
    assert_eq!(listener.on(ListenerEvent::AcceptFailed), ListenerAction::Accept);
    assert_eq!(listener.on(ListenerEvent::Accepted), ListenerAction::Serve);
    assert_eq!(listener.on(ListenerEvent::Shutdown), ListenerAction::AwaitTask);
    assert_eq!(listener.on(ListenerEvent::Accepted), ListenerAction::AwaitTask);
    assert_eq!(listener.on(ListenerEvent::TaskEnded), ListenerAction::AwaitTask);
    assert_eq!(listener.on(ListenerEvent::TaskEnded), ListenerAction::Finish);
}

#[test]
fn an_idle_listener_stops_at_once() {
    let mut listener = Listener::new();
    assert_eq!(listener.on(ListenerEvent::Shutdown), ListenerAction::Finish);
}

#[test]
fn a_good_response_is_relayed() {
    let mut x = Exchange::new(3);
    assert_eq!(x.on(ExchangeEvent::Admitted), Decision { action: ExchangeAction::Pick, dead: None });
    assert_eq!(
        x.on(ExchangeEvent::Picked(s(1))),
        Decision { action: ExchangeAction::Forward(s(1)), dead: None }
    );
    assert_eq!(x.on(ExchangeEvent::Response(404)), Decision { action: ExchangeAction::Relay, dead: None });
    assert_eq!(x.stage, Stage::Answered);
    assert_eq!(x.on(ExchangeEvent::Lost), Decision { action: ExchangeAction::Ignore, dead: None });
}

#[test]
fn a_client_without_tokens_is_refused() {
    let mut x = Exchange::new(3);
    assert_eq!(x.on(ExchangeEvent::RateLimited).action, ExchangeAction::Reply(429));
    assert_eq!(x.on(ExchangeEvent::Admitted).action, ExchangeAction::Ignore);
}

#[test]
fn no_backend_is_service_unavailable() {
    let mut x = Exchange::new(3);
    x.on(ExchangeEvent::Admitted);
    assert_eq!(x.on(ExchangeEvent::NoneAvailable).action, ExchangeAction::Reply(503));
}

#[test]
fn failures_are_retried_until_none_are_left() {
    let mut x = Exchange::new(2);
    x.on(ExchangeEvent::Admitted);
    x.on(ExchangeEvent::Picked(s(1)));
    assert_eq!(
        x.on(ExchangeEvent::Lost),
        Decision { action: ExchangeAction::Pick, dead: Some(s(1)) }
    );
    x.on(ExchangeEvent::Picked(s(2)));
    assert_eq!(
        x.on(ExchangeEvent::Response(500)),
        Decision { action: ExchangeAction::Pick, dead: None }
    );
    x.on(ExchangeEvent::Picked(s(3)));
    assert_eq!(
        x.on(ExchangeEvent::Response(502)),
        Decision { action: ExchangeAction::Relay, dead: Some(s(3)) }
    );
    assert_eq!(x.stage, Stage::Answered);
}

#[test]
fn a_lost_connection_without_retries_is_a_bad_gateway() {
    let mut x = Exchange::new(0);
    x.on(ExchangeEvent::Admitted);
    x.on(ExchangeEvent::Picked(s(1)));
    assert_eq!(
        x.on(ExchangeEvent::Lost),
        Decision { action: ExchangeAction::Reply(502), dead: Some(s(1)) }
    );
}

#[test]
fn hop_by_hop_headers_are_stripped() {
    for header in [
        "connection",
        "keep-alive",
        "proxy-authenticate",
        "proxy-authorization",
        "te",
        "trailer",
        "transfer-encoding",
        "upgrade",
    ] {
        assert!(is_stripped(header));
    }
    assert!(!is_stripped("host"));
    assert!(!is_stripped("content-length"));
}

#[test]
fn a_configuration_names_its_backends() {
    let mut c = config(vec![cluster(&[1, 2], false, 0), cluster(&[9], false, 0)], None);
    c.tcp_servers = vec![tcp(&[3]), tcp(&[]), tcp(&[4, 5])];
    assert_eq!(http_targets(&c), vec![name(1), name(2)]);
    assert_eq!(tcp_targets(&c), vec![name(3), name(4), name(5)]);
    assert!(http_targets(&config(vec![], None)).is_empty());
}

#[test]
fn what_is_no_address_is_left_out() {
    let http = vec![Some(backend(1)), None, Some(backend(2))];
    let tcp = vec![None, Some(backend(3))];
    let all = backends_to_register(&http, &tcp);
    let addrs: Vec<SocketAddr> = all.iter().map(|e| e.addr).collect();
    assert_eq!(addrs, vec![s(1), s(2), s(3)]);
    assert_eq!(all[2].text, name(3));
    assert_eq!(http_addrs(&http), vec![s(1), s(2)]);
}

#[test]
fn a_lost_request_is_tried_again_on_another_backend() {
    for sticky in [true, false] {
        let mut registry = backends(&[1, 2, 3]);
        let tracker = ConnectionTracker::default();
        let proxy = L7Proxy::new(config(vec![cluster(&[1, 2, 3], sticky, 2)], None));
        let ip = IpAddr::V4(77);
        let mut x = Exchange::new(proxy.max_retries());
        assert_eq!(x.on(ExchangeEvent::Admitted).action, ExchangeAction::Pick);
        let mut tried = vec![];
        for _ in 0..3 {
            let next = proxy.get_next_backend(ip, &registry, &tracker, cost).unwrap();
            assert!(!tried.contains(&next));
            tried.push(next);
            x.on(ExchangeEvent::Picked(next));
            let decision = x.on(ExchangeEvent::Lost);
            assert_eq!(decision.dead, Some(next));
            registry.set_status(next, HealthStatus::Dead);
        }
        assert_eq!(x.stage, Stage::Answered);
        assert_eq!(proxy.get_next_backend(ip, &registry, &tracker, cost), None);
        registry.set_status(s(2), HealthStatus::Healthy);
        assert_eq!(proxy.get_next_backend(ip, &registry, &tracker, cost), Some(s(2)));
    }
}

#[test]
fn a_reloaded_target_is_served() {
    for sticky in [true, false] {
        let mut registry = backends(&[8081]);
        let tracker = ConnectionTracker::new();
        let ip = IpAddr::V4(4);
        let mut proxy = L7Proxy::new(config(vec![cluster(&[8081], sticky, 0)], None));
        assert_eq!(proxy.get_next_backend(ip, &registry, &tracker, cost), Some(s(8081)));
        registry.register(&vec![backend(8082)]);
        assert!(proxy.reload(Some(config(vec![cluster(&[8082], sticky, 0)], None))));
        assert_eq!(proxy.get_next_backend(ip, &registry, &tracker, cost), Some(s(8082)));
    }
}

#[test]
fn a_reload_puts_its_rate_limit_in_force() {
    let ip = IpAddr::V4(1);
    let limit = |capacity: f64| {
        Some(RateLimitConfig { capacity: capacity.to_bits(), refill_rate: 0.0f64.to_bits() })
    };
    let mut proxy = L7Proxy::new(config(vec![], None));
    assert!(proxy.reload(Some(config(vec![], limit(2.0)))));
    assert!(proxy.is_permitted(ip, accrue, spend));
    assert!(proxy.reload(Some(config(vec![], limit(9.0)))));
    assert!(proxy.is_permitted(ip, accrue, spend));
    assert!(!proxy.is_permitted(ip, accrue, spend));
    assert!(!proxy.reload(None));
    assert!(!proxy.is_permitted(ip, accrue, spend));
    assert!(proxy.reload(Some(config(vec![], None))));
    assert!(proxy.is_permitted(ip, accrue, spend));
}

#[test]
fn a_tcp_proxy_takes_over_the_targets_of_its_listener() {
    let mut registry = backends(&[1]);
    let tracker = ConnectionTracker::new();
    let mut proxy = L4Proxy::new(tcp(&[1]));
    let mut other = tcp(&[3]);
    other.port = 6001;
    registry.register(&vec![backend(2), backend(3)]);
    assert!(!proxy.reload(&vec![]));
    assert_eq!(proxy.get_next_backend(&registry, &tracker), Some(s(1)));
    assert!(proxy.reload(&vec![other, tcp(&[2]), tcp(&[1])]));
    assert_eq!(proxy.get_next_backend(&registry, &tracker), Some(s(2)));
    assert_eq!(proxy.config.endpoint(), "127.0.0.1:6000");
}
