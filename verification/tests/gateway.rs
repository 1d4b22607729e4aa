use iron_proxy::gateway::balancer::{Change, LeastConnections};
use iron_proxy::gateway::config::load_config;
use iron_proxy::gateway::discovery::{ContainerEvent, Containers, DiscoveryAction};
use iron_proxy::gateway::limiter;
use iron_proxy::gateway::limiter::{RateLimiter, StoreEvent};
use iron_proxy::gateway::registry::{parse_routes, ProviderRegistry, StaticRoutes};
use iron_proxy::gateway::session::{Action, Event, Reply, Session};

fn list(items: &[&str]) -> Vec<String> {
    items.iter().map(|s| s.to_string()).collect()
}

fn table(items: &[(&str, &str)]) -> Vec<(String, String)> {
    items.iter().map(|p| (p.0.to_string(), p.1.to_string())).collect()
}

fn event(action: &str, id: &str, attributes: &[(&str, &str)]) -> ContainerEvent {
    ContainerEvent {
        action: action.to_string(),
        container_id: id.to_string(),
        attributes: table(attributes),
    }
}

#[test]
fn connections_go_where_there_are_fewest() {
    let mut balancer = LeastConnections::new(list(&["a", "b"]));
    let (first, t1) = balancer.next_target().unwrap();
    let (second, t2) = balancer.next_target().unwrap();
    assert_eq!((first.as_str(), second.as_str()), ("a", "b"));
    assert_eq!(t1.address(), "a");
    let (third, _t3) = balancer.next_target().unwrap();
    assert_eq!(third, "a");
    balancer.release(t2);
    let (fourth, _t4) = balancer.next_target().unwrap();
    assert_eq!(fourth, "b");
    balancer.release(t1);
    let (fifth, _t5) = balancer.next_target().unwrap();
    assert_eq!(fifth, "a");
}

#[test]
fn an_empty_table_routes_nothing() {
    assert!(LeastConnections::new(vec![]).next_target().is_none());
}

#[test]
fn a_reload_keeps_connections_and_health() {
    let mut balancer = LeastConnections::new(list(&["a", "b"]));
    let (_, t) = balancer.next_target().unwrap();
    assert_eq!(balancer.record_probe(&"b".to_string(), false), Some(Change::WentDown));
    balancer.update_backends(list(&["b", "a", "c"]));
    assert_eq!(balancer.addresses(), list(&["b", "a", "c"]));
    assert_eq!(balancer.counters_used(), 3);
    let (next, _n) = balancer.next_target().unwrap();
    assert_eq!(next, "c");
    balancer.release(t);
    let (next, _m) = balancer.next_target().unwrap();
    assert_eq!(next, "a");
}

#[test]
fn a_connection_of_a_removed_backend_ends_quietly() {
    let mut balancer = LeastConnections::new(list(&["a"]));
    let (_, t) = balancer.next_target().unwrap();
    balancer.update_backends(list(&["b"]));
    balancer.update_backends(list(&["a"]));
    balancer.release(t);
    let (next, tracker) = balancer.next_target().unwrap();
    assert_eq!(next, "a");
    assert_eq!(tracker.address(), "a");
}

#[test]
fn addresses_listed_twice_share_their_connections_after_a_reload() {
    let mut balancer = LeastConnections::new(list(&["a"]));
    balancer.update_backends(list(&["a", "a", "b"]));
    let (first, _t1) = balancer.next_target().unwrap();
    let (second, _t2) = balancer.next_target().unwrap();
    assert_eq!((first.as_str(), second.as_str()), ("a", "b"));
}

#[test]
fn probes_take_backends_out_and_back() {
    let mut balancer = LeastConnections::new(list(&["a", "b"]));
    let a = "a".to_string();
    assert_eq!(balancer.record_probe(&a, true), None);
    assert_eq!(balancer.record_probe(&a, false), Some(Change::WentDown));
    assert_eq!(balancer.record_probe(&a, false), None);
    assert_eq!(balancer.next_target().unwrap().0, "b");
    assert_eq!(balancer.record_probe(&"b".to_string(), false), Some(Change::WentDown));
    assert!(balancer.next_target().is_none());
    assert_eq!(balancer.record_probe(&a, true), Some(Change::BackOnline));
    assert_eq!(balancer.next_target().unwrap().0, "a");
    assert_eq!(balancer.record_probe(&"x".to_string(), true), None);
}

#[test]
fn providers_are_merged_sorted_and_without_duplicates() {
    let mut registry = ProviderRegistry::new(LeastConnections::new(vec![]));
    assert!(registry.has_room(10));
    registry.update_static(list(&["c", "a", "c"]));
    assert_eq!(registry.balancer.addresses(), list(&["a", "c"]));
    registry.update_docker(list(&["b", "a"]));
    assert_eq!(registry.balancer.addresses(), list(&["a", "b", "c"]));
    registry.update_static(vec![]);
    assert_eq!(registry.balancer.addresses(), list(&["a", "b"]));
    registry.update_docker(vec![]);
    assert!(registry.balancer.addresses().is_empty());
    registry.sync();
    assert!(registry.balancer.addresses().is_empty());
}

#[test]
fn a_merge_keeps_the_connections_of_targets_that_stay() {
    let mut registry = ProviderRegistry::new(LeastConnections::new(vec![]));
    registry.update_static(list(&["a", "b"]));
    let (first, _t) = registry.balancer.next_target().unwrap();
    assert_eq!(first, "a");
    registry.update_docker(list(&["c"]));
    assert_eq!(registry.balancer.next_target().unwrap().0, "b");
    assert_eq!(registry.balancer.next_target().unwrap().0, "c");
}

#[test]
fn routes_leave_out_comments_and_blank_lines() {
    let content = "# targets\n 10.0.0.1:80 \r\n\n\t# off\n10.0.0.2:80#x\n";
    assert_eq!(parse_routes(content), list(&["10.0.0.1:80", "10.0.0.2:80#x"]));
    assert!(parse_routes("").is_empty());
}

#[test]
fn routes_are_loaded_when_they_change() {
    let mut routes = StaticRoutes::new();
    assert_eq!(routes.read(None), None);
    assert_eq!(routes.read(Some("".to_string())), None);
    assert_eq!(routes.read(Some("a\n".to_string())), Some(list(&["a"])));
    assert_eq!(routes.read(Some("a\n".to_string())), None);
    assert_eq!(routes.read(None), None);
    assert_eq!(routes.read(Some("".to_string())), Some(vec![]));
}

#[test]
fn settings_have_defaults() {
    let config = load_config(None, None);
    assert_eq!(config.server.bind_address, "127.0.0.1:8080");
    assert_eq!(config.rate_limiting.max_requests_per_minute, 100);
    let config = load_config(Some("0.0.0.0:1".to_string()), Some("7".to_string()));
    assert_eq!(config.server.bind_address, "0.0.0.0:1");
    assert_eq!(config.rate_limiting.max_requests_per_minute, 7);
    let config = load_config(None, Some("many".to_string()));
    assert_eq!(config.rate_limiting.max_requests_per_minute, 100);
}

#[test]
fn a_started_container_is_inspected_and_announced() {
    let mut containers = Containers::new();
    let labels = [("name", "web"), ("iron-proxy", "true"), ("iron-proxy.port", "3000")];
    match containers.on_event(&event("start", "c1", &labels)) {
        DiscoveryAction::Inspect { port } => assert_eq!(port, "3000"),
        _ => panic!("not inspected"),
    }
    let networks = Some(table(&[("host", "1.1.1.1"), ("bridge", "172.17.0.2")]));
    let announced = containers.on_inspected("c1".to_string(), &"3000".to_string(), &networks).unwrap();
    assert_eq!(announced.target, "172.17.0.2:3000");
    assert_eq!(announced.targets, list(&["172.17.0.2:3000"]));
    match containers.on_event(&event("start", "c2", &[("iron-proxy", "true")])) {
        DiscoveryAction::Inspect { port } => assert_eq!(port, "8000"),
        _ => panic!("not inspected"),
    }
}

#[test]
fn a_container_without_an_address_is_not_announced() {
    let mut containers = Containers::new();
    let port = "80".to_string();
    assert!(containers.on_inspected("c".to_string(), &port, &None).is_none());
    assert!(containers.on_inspected("c".to_string(), &port, &Some(table(&[("host", "1.1.1.1")]))).is_none());
    assert!(containers.on_inspected("c".to_string(), &port, &Some(table(&[("bridge", "")]))).is_none());
}

#[test]
fn a_dead_container_takes_its_target_with_it() {
    let mut containers = Containers::new();
    let port = "80".to_string();
    containers.on_inspected("c1".to_string(), &port, &Some(table(&[("bridge", "1.0.0.1")])));
    containers.on_inspected("c2".to_string(), &port, &Some(table(&[("bridge", "1.0.0.2")])));
    let labels = [("iron-proxy", "true")];
    match containers.on_event(&event("die", "c1", &labels)) {
        DiscoveryAction::Publish { targets, removed } => {
            assert_eq!(targets, list(&["1.0.0.2:80"]));
            assert_eq!(removed, "1.0.0.1:80");
        }
        _ => panic!("not published"),
    }
    assert!(matches!(containers.on_event(&event("die", "c1", &labels)), DiscoveryAction::Ignore));
}

#[test]
fn other_containers_are_ignored() {
    let mut containers = Containers::new();
    assert!(matches!(containers.on_event(&event("start", "c", &[])), DiscoveryAction::Ignore));
    assert!(matches!(
        containers.on_event(&event("start", "c", &[("iron-proxy", "false")])),
        DiscoveryAction::Ignore
    ));
    assert!(matches!(
        containers.on_event(&event("stop", "c", &[("iron-proxy", "true")])),
        DiscoveryAction::Ignore
    ));
}

#[test]
fn a_client_is_blocked_above_the_limit() {
    let limiter = RateLimiter::new(2);
    assert_eq!(limiter.key("10.0.0.9"), "rate_limit:10.0.0.9");
    let (stage, action) = limiter.is_blocked(limiter::Stage::Connecting, StoreEvent::Connected);
    assert!(action == limiter::Action::Count);
    let (_, action) = limiter.is_blocked(stage, StoreEvent::Counted { count: 2 });
    assert!(action == limiter::Action::Answer { blocked: false });
    let (_, action) = limiter.is_blocked(stage, StoreEvent::Counted { count: 3 });
    assert!(action == limiter::Action::Answer { blocked: true });
}

#[test]
fn the_first_request_starts_the_window() {
    let limiter = RateLimiter::new(0);
    let (stage, action) =
        limiter.is_blocked(limiter::Stage::Counting, StoreEvent::Counted { count: 1 });
    assert!(action == limiter::Action::Expire);
    let (stage, action) = limiter.is_blocked(stage, StoreEvent::ExpirySettled);
    assert!(action == limiter::Action::Answer { blocked: true });
    let (_, action) = limiter.is_blocked(stage, StoreEvent::Connected);
    assert!(action == limiter::Action::Wait);
}

#[test]
fn a_store_that_fails_blocks_nobody() {
    let limiter = RateLimiter::new(0);
    for stage in [limiter::Stage::Connecting, limiter::Stage::Counting] {
        let (_, action) = limiter.is_blocked(stage, StoreEvent::Failed);
        assert!(action == limiter::Action::Answer { blocked: false });
    }
}

#[test]
fn replies_are_sent_as_they_are_written() {
    assert_eq!(
        Reply::RateLimited.text(),
        "HTTP/1.1 429 Too Many Requests\r\nConnection: close\r\nContent-Length: 32\r\n\r\nRate Limit Exceeded. Slow Down!!"
    );
    assert_eq!(
        Reply::NoBackend.text(),
        "HTTP/1.1 503 Service Unavailable\r\nConnection: close\r\nContent-Length: 29\r\n\r\nAll backend servers are down."
    );
    assert_eq!(
        Reply::BackendHung.text(),
        "HTTP/1.1 504 Gateway Timeout\r\nConnection: close\r\nContent-Length: 36\r\n\r\nThe server took too long to respond."
    );
    assert_eq!(
        Reply::ConnectTimedOut.text(),
        "HTTP/1.1 504 Gateway Timeout\r\n\r\nConnection timed out."
    );
}

#[test]
fn a_connection_runs_its_course() {
    let mut session = Session::new();
    assert!(session.on(Event::Handshaken { ok: true }) == Action::AskLimit);
    assert!(session.on(Event::Limited { blocked: false }) == Action::Route);
    assert!(session.on(Event::Routed { found: true }) == Action::Connect);
    assert!(session.on(Event::Connected) == Action::Exchange);
    assert!(session.on(Event::Exchanged) == Action::Hangup);
    assert!(session.on(Event::Connected) == Action::Wait);
}

#[test]
fn a_connection_is_turned_away_where_it_fails() {
    let mut session = Session::new();
    assert!(session.on(Event::Handshaken { ok: false }) == Action::Hangup);

    let mut session = Session::new();
    session.on(Event::Handshaken { ok: true });
    assert!(
        session.on(Event::Limited { blocked: true })
            == Action::Answer { reply: Reply::RateLimited, drain: true }
    );
    assert!(session.on(Event::Routed { found: true }) == Action::Wait);

    let mut session = Session::new();
    session.on(Event::Handshaken { ok: true });
    session.on(Event::Limited { blocked: false });
    assert!(
        session.on(Event::Routed { found: false })
            == Action::Answer { reply: Reply::NoBackend, drain: true }
    );
}

#[test]
fn a_slow_backend_is_answered_for() {
    for connects in [true, false] {
        let mut session = Session::new();
        session.on(Event::Handshaken { ok: true });
        session.on(Event::Limited { blocked: false });
        session.on(Event::Routed { found: true });
        if connects {
            session.on(Event::Connected);
            assert!(
                session.on(Event::ExchangeExpired)
                    == Action::Answer { reply: Reply::BackendHung, drain: false }
            );
        } else {
            assert!(
                session.on(Event::ConnectExpired)
                    == Action::Answer { reply: Reply::ConnectTimedOut, drain: false }
            );
        }
    }
    let mut session = Session::new();
    session.on(Event::Handshaken { ok: true });
    session.on(Event::Limited { blocked: false });
    session.on(Event::Routed { found: true });
    assert!(session.on(Event::ConnectFailed) == Action::Hangup);
}

#[test]
fn counts_are_the_open_connections() {
    let mut balancer = LeastConnections::new(list(&["a", "b"]));
    let mut open = vec![];
    for _ in 0..4 {
        open.push(balancer.next_target().unwrap().1);
    }
    // Two connections each; the ones to `a` end.
    let to_b: Vec<_> = open
        .into_iter()
        .filter_map(|t| {
            if t.address() == "a" {
                balancer.release(t);
                None
            } else {
                Some(t)
            }
        })
        .collect();
    assert_eq!(to_b.len(), 2);
    let next: Vec<String> = (0..3).map(|_| balancer.next_target().unwrap().0).collect();
    assert_eq!(next, list(&["a", "a", "a"]));
}

#[test]
fn a_reload_with_the_same_list_changes_nothing() {
    let mut balancer = LeastConnections::new(list(&["a", "b"]));
    let (_, _t) = balancer.next_target().unwrap();
    balancer.record_probe(&"b".to_string(), false);
    balancer.update_backends(list(&["a", "b"]));
    assert_eq!(balancer.counters_used(), 2);
    assert_eq!(balancer.next_target().unwrap().0, "a");
    balancer.record_probe(&"b".to_string(), true);
    assert_eq!(balancer.next_target().unwrap().0, "b");
    assert_eq!(balancer.next_target().unwrap().0, "b");
    assert_eq!(balancer.next_target().unwrap().0, "a");
}

#[test]
fn connections_are_spread_evenly() {
    let mut balancer = LeastConnections::new(list(&["a", "b", "c"]));
    let mut counts = [0i64; 3];
    for k in 1..20i64 {
        let (address, _kept) = balancer.next_target().unwrap();
        counts[["a", "b", "c"].iter().position(|x| **x == *address).unwrap()] += 1;
        for n in counts {
            assert!(n == k / 3 || n == k / 3 + 1);
        }
    }
}

#[test]
fn a_removed_backend_starts_over() {
    let mut balancer = LeastConnections::new(list(&["a", "b"]));
    let (first, old) = balancer.next_target().unwrap();
    assert_eq!(first, "a");
    balancer.update_backends(list(&["b"]));
    balancer.update_backends(list(&["a", "b"]));
    let (next, _t1) = balancer.next_target().unwrap();
    assert_eq!(next, "a");
    balancer.release(old);
    let (next, _t2) = balancer.next_target().unwrap();
    assert_eq!(next, "b");
}

#[test]
fn providers_come_in_either_order() {
    let mut one = ProviderRegistry::new(LeastConnections::new(vec![]));
    one.update_static(list(&["b", "a"]));
    one.update_docker(list(&["c", "b"]));
    let mut two = ProviderRegistry::new(LeastConnections::new(vec![]));
    two.update_docker(list(&["c", "b"]));
    two.update_static(list(&["b", "a"]));
    assert_eq!(one.balancer.addresses(), list(&["a", "b", "c"]));
    assert_eq!(two.balancer.addresses(), one.balancer.addresses());
    one.balancer.record_probe(&"b".to_string(), false);
    one.update_docker(vec![]);
    assert_eq!(one.balancer.addresses(), list(&["a", "b"]));
    assert_eq!(one.balancer.next_target().unwrap().0, "a");
    assert_eq!(one.balancer.next_target().unwrap().0, "a");
}
