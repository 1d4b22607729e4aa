use iron_proxy::addr::{hash_ip, IpAddr, SocketAddr};
use iron_proxy::health::Endpoint;
use iron_proxy::clock::{current_time_ms, timestamp, ClockError};
use iron_proxy::router::{cheapest_index, BackendStats, ConnectionTracker};

fn a(n: u16) -> SocketAddr {
    SocketAddr::V4 { ip: 0x7f00_0001, port: n }
}

fn cost(active: usize, latency: u64) -> u64 {
    ((active as f64 + 1.0) * f64::from_bits(latency)).to_bits()
}

fn decay(average: u64, rtt: u64, gap_ms: u64) -> u64 {
    let alpha = (-(gap_ms as f64) / 10000.0).exp2();
    (f64::from_bits(rtt) * (1.0 - alpha) + f64::from_bits(average) * alpha).to_bits()
}

fn bits(x: f64) -> u64 {
    x.to_bits()
}

#[test]
fn timestamps_are_milliseconds_since_the_epoch() {
    assert_eq!(timestamp(Some(1_700_000_000_123_999_999)), Ok(1_700_000_000_123));
    assert_eq!(timestamp(Some(999_999)), Ok(0));
    assert_eq!(timestamp(Some(0x1_0000_0000_0000_0005 * 1_000_000)), Ok(5));
    assert_eq!(timestamp(None), Err(ClockError));
}

#[test]
fn the_system_clock_is_read() {
    let before = std::time::SystemTime::now()
        .duration_since(std::time::UNIX_EPOCH)
        .unwrap()
        .as_millis() as u64;
    let read = current_time_ms().unwrap();
    let after = std::time::SystemTime::now()
        .duration_since(std::time::UNIX_EPOCH)
        .unwrap()
        .as_millis() as u64;
    assert!(before <= read && read <= after);
}

#[test]
fn fresh_stats_are_idle() {
    let stats = BackendStats::at(77);
    assert_eq!(stats.active_requests, 0);
    assert_eq!(f64::from_bits(stats.get_ewma()), 0.0);
    assert_eq!(stats.last_update_ms, 77);
    assert_eq!(BackendStats::from_reading(Ok(77)), Ok(stats));
    assert_eq!(BackendStats::from_reading(Err(ClockError)), Err(ClockError));
    let now = BackendStats::new().unwrap();
    assert_eq!(now.active_requests, 0);
    assert!(now.last_update_ms > 1_600_000_000_000);
}

#[test]
fn a_new_tracker_knows_nobody() {
    let tracker = ConnectionTracker::new();
    assert_eq!(tracker.stats_of(a(1)), None);
    assert_eq!(tracker.load(a(1)), 0);
}

#[test]
fn requests_are_counted_per_backend() {
    let mut tracker = ConnectionTracker::new();
    tracker.inc_at(a(1), 10);
    tracker.inc_at(a(1), 20);
    tracker.inc_at(a(2), 30);
    assert_eq!(
        tracker.stats_of(a(1)),
        Some(BackendStats { active_requests: 2, ewma_latency_bits: 0, last_update_ms: 10 })
    );
    assert_eq!(tracker.load(a(2)), 1);
    tracker.dec(a(1));
    assert_eq!(tracker.load(a(1)), 1);
    assert_eq!(tracker.load(a(2)), 1);
}

#[test]
fn a_request_leaves_no_load_behind() {
    let mut tracker = ConnectionTracker::new();
    tracker.inc_at(a(1), 1);
    let before = tracker.stats_of(a(1));
    tracker.inc_at(a(1), 9);
    tracker.dec(a(1));
    assert_eq!(tracker.stats_of(a(1)), before);
}

#[test]
fn counts_stop_at_zero_and_unknown_backends_are_passed_over() {
    let mut tracker = ConnectionTracker::new();
    tracker.dec(a(1));
    assert_eq!(tracker.stats_of(a(1)), None);
    tracker.inc_at(a(1), 1);
    tracker.dec(a(1));
    tracker.dec(a(1));
    assert_eq!(tracker.load(a(1)), 0);
    tracker.dec_and_update_ewma_at(a(9), bits(5.0), 3, decay);
    assert_eq!(tracker.stats_of(a(9)), None);
    assert_eq!(tracker.dec_and_update_ewma(a(9), bits(5.0), decay), Ok(()));
    assert_eq!(tracker.stats_of(a(9)), None);
}

#[test]
fn inc_reads_the_clock_for_a_new_backend_only() {
    let mut tracker = ConnectionTracker::new();
    assert_eq!(tracker.inc(a(1)), Ok(()));
    let first = tracker.stats_of(a(1)).unwrap();
    assert_eq!(first.active_requests, 1);
    assert!(first.last_update_ms > 1_600_000_000_000);
    assert_eq!(tracker.inc(a(1)), Ok(()));
    let second = tracker.stats_of(a(1)).unwrap();
    assert_eq!(second.active_requests, 2);
    assert_eq!(second.last_update_ms, first.last_update_ms);
}

#[test]
fn the_first_latency_is_the_average() {
    let mut tracker = ConnectionTracker::new();
    tracker.inc_at(a(1), 0);
    tracker.dec_and_update_ewma_at(a(1), bits(12.5), 1000, decay);
    let stats = tracker.stats_of(a(1)).unwrap();
    assert_eq!(stats.active_requests, 0);
    assert_eq!(f64::from_bits(stats.get_ewma()), 12.5);
    assert_eq!(stats.last_update_ms, 1000);
}

#[test]
fn a_spike_becomes_the_average_at_once() {
    let mut tracker = ConnectionTracker::new();
    tracker.inc_at(a(1), 0);
    tracker.dec_and_update_ewma_at(a(1), bits(10.0), 1000, decay);
    tracker.dec_and_update_ewma_at(a(1), bits(500.0), 1001, decay);
    assert_eq!(f64::from_bits(tracker.stats_of(a(1)).unwrap().get_ewma()), 500.0);
}

#[test]
fn a_lower_latency_decays_the_average() {
    let mut tracker = ConnectionTracker::new();
    tracker.inc_at(a(1), 0);
    tracker.dec_and_update_ewma_at(a(1), bits(100.0), 1000, decay);
    tracker.dec_and_update_ewma_at(a(1), bits(50.0), 11000, decay);
    assert_eq!(f64::from_bits(tracker.stats_of(a(1)).unwrap().get_ewma()), 75.0);
    assert_eq!(tracker.stats_of(a(1)).unwrap().last_update_ms, 11000);
}

#[test]
fn a_clock_set_back_counts_as_no_time() {
    let mut tracker = ConnectionTracker::new();
    tracker.inc_at(a(1), 0);
    tracker.dec_and_update_ewma_at(a(1), bits(100.0), 5000, decay);
    tracker.dec_and_update_ewma_at(a(1), bits(50.0), 4000, decay);
    let stats = tracker.stats_of(a(1)).unwrap();
    assert_eq!(f64::from_bits(stats.get_ewma()), 100.0);
    assert_eq!(stats.last_update_ms, 4000);
}

#[test]
fn ending_now_updates_the_average() {
    let mut tracker = ConnectionTracker::new();
    assert_eq!(tracker.inc(a(1)), Ok(()));
    assert_eq!(tracker.dec_and_update_ewma(a(1), bits(7.0), decay), Ok(()));
    let stats = tracker.stats_of(a(1)).unwrap();
    assert_eq!(stats.active_requests, 0);
    assert_eq!(f64::from_bits(stats.get_ewma()), 7.0);
}

#[test]
fn least_connections_wins_and_the_first_of_equals() {
    let mut tracker = ConnectionTracker::new();
    assert_eq!(tracker.get_best_l4(&[]), None);
    assert_eq!(tracker.get_best_l4(&[a(3), a(1), a(2)]), Some(a(3)));
    tracker.inc_at(a(3), 0);
    assert_eq!(tracker.get_best_l4(&[a(3), a(1), a(2)]), Some(a(1)));
    tracker.inc_at(a(1), 0);
    tracker.inc_at(a(1), 0);
    tracker.inc_at(a(2), 0);
    assert_eq!(tracker.get_best_l4(&[a(1), a(2), a(3)]), Some(a(2)));
}

#[test]
fn the_cheapest_backend_wins() {
    let mut tracker = ConnectionTracker::new();
    assert_eq!(tracker.get_best_l7(&[], cost), None);
    tracker.inc_at(a(1), 0);
    tracker.dec_and_update_ewma_at(a(1), bits(20.0), 0, decay);
    tracker.inc_at(a(2), 0);
    tracker.dec_and_update_ewma_at(a(2), bits(30.0), 0, decay);
    assert_eq!(tracker.get_best_l7(&[a(2), a(1)], cost), Some(a(1)));
    tracker.inc_at(a(1), 0);
    assert_eq!(tracker.get_best_l7(&[a(1), a(2)], cost), Some(a(2)));
}

#[test]
fn a_backend_without_metrics_is_tried_first() {
    let mut tracker = ConnectionTracker::new();
    tracker.inc_at(a(1), 0);
    tracker.dec_and_update_ewma_at(a(1), bits(0.001), 0, decay);
    assert_eq!(tracker.get_best_l7(&[a(1), a(2)], cost), Some(a(2)));
    assert_eq!(f64::from_bits(tracker.calculate_l7_cost(a(2), &cost)), 0.0);
}

#[test]
fn a_backend_without_an_average_costs_its_requests() {
    let mut tracker = ConnectionTracker::new();
    tracker.inc_at(a(1), 0);
    tracker.inc_at(a(1), 0);
    assert_eq!(f64::from_bits(tracker.calculate_l7_cost(a(1), &cost)), 3.0);
    tracker.dec_and_update_ewma_at(a(1), bits(4.0), 0, decay);
    assert_eq!(f64::from_bits(tracker.calculate_l7_cost(a(1), &cost)), 8.0);
}

#[test]
fn costs_that_are_no_numbers_are_not_taken_over_others() {
    assert_eq!(cheapest_index(&vec![bits(3.0), bits(1.0), bits(1.0), bits(2.0)]), 1);
    assert_eq!(cheapest_index(&vec![bits(3.0), bits(f64::NAN), bits(2.0)]), 2);
    assert_eq!(cheapest_index(&vec![bits(f64::NAN), bits(1.0)]), 0);
    assert_eq!(cheapest_index(&vec![bits(-0.0), bits(0.0)]), 0);
}

fn ep(n: u16) -> Endpoint {
    Endpoint { addr: a(n), text: format!("127.0.0.1:{}", n) }
}

#[test]
fn a_sticky_client_keeps_its_backend() {
    let tracker = ConnectionTracker::new();
    let ip = IpAddr::V4(0xc0a8_0105);
    assert_eq!(tracker.get_sticky_backend(ip, &[]), None);
    let sorted = [a(1), a(2), a(3)];
    let index = (hash_ip(ip) as usize) % 3;
    assert_eq!(tracker.get_sticky_backend(ip, &[ep(1), ep(2), ep(3)]), Some(sorted[index]));
    assert_eq!(tracker.get_sticky_backend(ip, &[ep(3), ep(1), ep(2)]), Some(sorted[index]));
    assert_eq!(tracker.get_sticky_backend(ip, &[ep(2), ep(3), ep(1)]), Some(sorted[index]));
}

#[test]
fn sticky_clients_count_into_the_alphabetical_list() {
    let tracker = ConnectionTracker::new();
    let nine = SocketAddr::V4 { ip: 0x0a00_0009, port: 80 };
    let ten = SocketAddr::V4 { ip: 0x0a00_000a, port: 80 };
    for n in 0..20 {
        let ip = IpAddr::V4(n);
        let list = [
            Endpoint { addr: nine, text: "10.0.0.9:80".to_string() },
            Endpoint { addr: ten, text: "10.0.0.10:80".to_string() },
        ];
        let expected = [ten, nine][(hash_ip(ip) as usize) % 2];
        assert_eq!(tracker.get_sticky_backend(ip, &list), Some(expected));
    }
}

#[test]
fn sticky_clients_spread_over_the_backends() {
    let tracker = ConnectionTracker::new();
    let backends = [a(1), a(2), a(3)];
    let mut seen = [false; 3];
    for n in 0..100 {
        let chosen =
            tracker.get_sticky_backend(IpAddr::V4(n), &[ep(1), ep(2), ep(3)]).unwrap();
        for i in 0..3 {
            if backends[i] == chosen {
                seen[i] = true;
            }
        }
    }
    assert_eq!(seen, [true; 3]);
}

#[test]
fn overlapping_connections_leave_no_load() {
    let mut tracker = ConnectionTracker::new();
    tracker.inc_at(a(1), 0);
    tracker.dec_and_update_ewma_at(a(1), bits(4.0), 5, decay);
    let before = tracker.stats_of(a(1));
    for n in [1, 2, 1, 1, 2] {
        tracker.inc_at(a(n), 9);
    }
    for n in [2, 1, 1, 2, 1] {
        tracker.dec(a(n));
    }
    assert_eq!(tracker.stats_of(a(1)), before);
    assert_eq!(tracker.load(a(2)), 0);
}

#[test]
fn a_backend_with_a_spike_is_bypassed_until_it_cools_down() {
    let mut tracker = ConnectionTracker::new();
    for n in [1, 2] {
        tracker.inc_at(a(n), 0);
        tracker.dec_and_update_ewma_at(a(n), bits(10.0), 0, decay);
    }
    tracker.dec_and_update_ewma_at(a(1), bits(900.0), 1000, decay);
    assert_eq!(tracker.get_best_l7(&[a(1), a(2)], cost), Some(a(2)));
    tracker.dec_and_update_ewma_at(a(1), bits(1.0), 200_000, decay);
    assert_eq!(tracker.get_best_l7(&[a(1), a(2)], cost), Some(a(1)));
}
