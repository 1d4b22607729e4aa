use iron_proxy::addr::SocketAddr;
use iron_proxy::admin::get_health_status;
use iron_proxy::health::{
    http_probe_succeeded, probe_for, Endpoint, HealthChange, HealthRegistry, HealthStatus, Probe,
};
use iron_proxy::selection::available_backends;

fn h(n: u16) -> SocketAddr {
    SocketAddr::V4 { ip: 0x0a00_0001, port: n }
}

fn ep(n: u16) -> Endpoint {
    Endpoint { addr: h(n), text: format!("10.0.0.1:{}", n) }
}

fn registry(ports: &[u16]) -> HealthRegistry {
    HealthRegistry::new(&ports.iter().map(|n| ep(*n)).collect())
}

#[test]
fn all_backends_start_healthy() {
    let r = registry(&[1, 2, 1, 3]);
    assert_eq!(r.get_all_backends(), vec![h(1), h(2), h(3)]);
    assert_eq!(r.get_healthy_backends(), vec![h(1), h(2), h(3)]);
    assert_eq!(r.get_status(&h(2)), Some(HealthStatus::Healthy));
    assert_eq!(r.get_status(&h(9)), None);
    assert_eq!(r.len(), 3);
}

#[test]
fn a_dead_backend_leaves_the_rotation_and_returns() {
    let mut r = registry(&[1, 2]);
    r.set_status(h(1), HealthStatus::Dead);
    assert_eq!(r.get_healthy_backends(), vec![h(2)]);
    assert_eq!(r.get_all_backends(), vec![h(1), h(2)]);
    assert_eq!(r.get_status(&h(1)), Some(HealthStatus::Dead));
    assert_eq!(r.get_status(&h(2)), Some(HealthStatus::Healthy));
    r.set_status(h(1), HealthStatus::Healthy);
    assert_eq!(r.get_healthy_backends(), vec![h(1), h(2)]);
}

#[test]
fn an_unknown_backend_is_not_registered_by_its_status() {
    let mut r = registry(&[1]);
    r.set_status(h(7), HealthStatus::Healthy);
    assert_eq!(r.get_all_backends(), vec![h(1)]);
}

#[test]
fn probes_report_changes_only() {
    let mut r = registry(&[1]);
    assert_eq!(r.record_probe(h(1), true), None);
    assert_eq!(r.record_probe(h(1), false), Some(HealthChange::Failed));
    assert_eq!(r.record_probe(h(1), false), None);
    assert_eq!(r.get_healthy_backends(), vec![]);
    assert_eq!(r.record_probe(h(1), true), Some(HealthChange::Recovered));
    assert_eq!(r.get_healthy_backends(), vec![h(1)]);
    assert_eq!(r.record_probe(h(5), true), Some(HealthChange::Recovered));
    assert_eq!(r.record_probe(h(5), false), None);
    assert_eq!(r.get_all_backends(), vec![h(1)]);
}

#[test]
fn only_success_is_healthy() {
    assert!(http_probe_succeeded(Some(200)));
    assert!(http_probe_succeeded(Some(204)));
    assert!(http_probe_succeeded(Some(299)));
    assert!(!http_probe_succeeded(Some(199)));
    assert!(!http_probe_succeeded(Some(300)));
    assert!(!http_probe_succeeded(Some(404)));
    assert!(!http_probe_succeeded(Some(500)));
    assert!(!http_probe_succeeded(None));
}

#[test]
fn http_targets_are_probed_by_http_and_others_by_tcp() {
    let http = vec![h(1), h(2)];
    match probe_for(&http, h(2), "10.0.0.1:2") {
        Probe::Http(url) => assert_eq!(url, "http://10.0.0.1:2/"),
        Probe::Tcp => panic!("probed by TCP"),
    }
    assert!(matches!(probe_for(&http, h(3), "10.0.0.1:3"), Probe::Tcp));
}

#[test]
fn only_healthy_targets_are_available() {
    let mut r = registry(&[1, 2, 3]);
    let targets = vec!["10.0.0.1:3".to_string(), "10.0.0.1:1".to_string(), "other:1".to_string()];
    assert_eq!(available_backends(&r, &targets), vec![h(1), h(3)]);
    r.set_status(h(1), HealthStatus::Dead);
    assert_eq!(available_backends(&r, &targets), vec![h(3)]);
    assert_eq!(available_backends(&r, &vec![]), vec![]);
}

#[test]
fn the_summary_names_every_backend() {
    let mut r = registry(&[1, 2]);
    let summary = get_health_status(&r);
    assert_eq!(summary.status, "OK");
    r.set_status(h(2), HealthStatus::Dead);
    let summary = get_health_status(&r);
    assert_eq!(summary.status, "Degraded");
    assert_eq!(
        summary.backends,
        vec![
            ("10.0.0.1:1".to_string(), "Healthy".to_string()),
            ("10.0.0.1:2".to_string(), "Dead".to_string()),
        ]
    );
}

#[test]
fn an_empty_cluster_is_said_to_be_empty() {
    let summary = get_health_status(&registry(&[]));
    assert_eq!(summary.status, "No backends Configured");
    assert!(summary.backends.is_empty());
}

#[test]
fn a_registration_keeps_known_backends_and_appends_new_ones() {
    let mut r = registry(&[1, 2]);
    r.set_status(h(2), HealthStatus::Dead);
    r.register(&vec![ep(3), ep(2), ep(3)]);
    assert_eq!(r.get_all_backends(), vec![h(1), h(2), h(3)]);
    assert_eq!(r.get_status(&h(2)), Some(HealthStatus::Dead));
    assert_eq!(r.get_healthy_backends(), vec![h(1), h(3)]);
    assert_eq!(r.record_probe(h(3), false), Some(HealthChange::Failed));
    assert_eq!(r.get_healthy_backends(), vec![h(1)]);
}
