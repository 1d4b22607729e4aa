use iron_proxy::addr::IpAddr;
use iron_proxy::rate_limit::{RateLimiter, TokenBucket};

const SECOND: u128 = 1_000_000_000;

fn accrue(tokens: u64, rate: u64, nanos: u128) -> u64 {
    (f64::from_bits(tokens) + nanos as f64 / 1e9 * f64::from_bits(rate)).to_bits()
}

fn spend(tokens: u64, amount: u64) -> u64 {
    (f64::from_bits(tokens) - f64::from_bits(amount)).to_bits()
}

fn one() -> u64 {
    1.0f64.to_bits()
}

fn tokens(bucket: &TokenBucket) -> f64 {
    f64::from_bits(bucket.tokens)
}

#[test]
fn a_bucket_starts_full() {
    let bucket = TokenBucket::new(5.0f64.to_bits(), 1.0f64.to_bits(), 7);
    assert_eq!(tokens(&bucket), 5.0);
    assert_eq!(bucket.last_refill, 7);
}

#[test]
fn a_burst_is_allowed_up_to_the_capacity() {
    let mut bucket = TokenBucket::new(3.0f64.to_bits(), 1.0f64.to_bits(), 0);
    assert!(bucket.consume(one(), 0, accrue, spend));
    assert!(bucket.consume(one(), 0, accrue, spend));
    assert!(bucket.consume(one(), 0, accrue, spend));
    assert!(!bucket.consume(one(), 0, accrue, spend));
    assert_eq!(tokens(&bucket), 0.0);
}

#[test]
fn a_refusal_takes_no_tokens() {
    let mut bucket = TokenBucket::new(0.5f64.to_bits(), 0.0f64.to_bits(), 0);
    assert!(!bucket.consume(one(), 9, accrue, spend));
    assert_eq!(tokens(&bucket), 0.5);
    assert_eq!(bucket.last_refill, 9);
}

#[test]
fn tokens_come_back_at_the_rate() {
    let mut bucket = TokenBucket::new(10.0f64.to_bits(), 2.0f64.to_bits(), 0);
    assert!(bucket.consume(10.0f64.to_bits(), 0, accrue, spend));
    bucket.refill(3 * SECOND / 2, &accrue);
    assert_eq!(tokens(&bucket), 3.0);
    assert_eq!(bucket.last_refill, 3 * SECOND / 2);
}

#[test]
fn a_refill_stops_at_the_capacity() {
    let mut bucket = TokenBucket::new(4.0f64.to_bits(), 100.0f64.to_bits(), 0);
    assert!(bucket.consume(one(), 0, accrue, spend));
    bucket.refill(60 * SECOND, &accrue);
    assert_eq!(tokens(&bucket), 4.0);
}

#[test]
fn a_clock_that_stands_still_brings_nothing() {
    let mut bucket = TokenBucket::new(4.0f64.to_bits(), 100.0f64.to_bits(), 5 * SECOND);
    assert!(bucket.consume(one(), 5 * SECOND, accrue, spend));
    bucket.refill(4 * SECOND, &accrue);
    assert_eq!(tokens(&bucket), 3.0);
}

#[test]
fn clients_have_buckets_of_their_own() {
    let mut limiter = RateLimiter::new(1.0f64.to_bits(), 1.0f64.to_bits());
    let a = IpAddr::V4(1);
    let b = IpAddr::V4(2);
    let c = IpAddr::V6(1);
    assert!(limiter.check_at(a, 0, accrue, spend));
    assert!(!limiter.check_at(a, 0, accrue, spend));
    assert!(limiter.check_at(b, 0, accrue, spend));
    assert!(limiter.check_at(c, 0, accrue, spend));
    assert!(!limiter.check_at(c, 0, accrue, spend));
    assert!(limiter.check_at(a, SECOND, accrue, spend));
    assert!(!limiter.check_at(a, SECOND, accrue, spend));
}

#[test]
fn a_limiter_reads_its_own_clock() {
    let mut limiter = RateLimiter::new(2.0f64.to_bits(), 0.0f64.to_bits());
    let ip = IpAddr::V6(0xfe80);
    assert!(limiter.check(ip, accrue, spend));
    assert!(limiter.check(ip, accrue, spend));
    assert!(!limiter.check(ip, accrue, spend));
}

#[test]
fn a_limiter_refills_over_real_time() {
    let mut limiter = RateLimiter::new(1.0f64.to_bits(), 1000.0f64.to_bits());
    let ip = IpAddr::V4(3);
    assert!(limiter.check(ip, accrue, spend));
    let start = std::time::Instant::now();
    while start.elapsed().as_millis() < 5 {}
    assert!(limiter.check(ip, accrue, spend));
}

#[test]
fn new_settings_keep_the_tokens_up_to_the_new_capacity() {
    let mut limiter = RateLimiter::new(5.0f64.to_bits(), 0.0f64.to_bits());
    let ip = IpAddr::V4(8);
    assert!(limiter.check_at(ip, 0, accrue, spend));
    limiter.reconfigure(2.0f64.to_bits(), 1.0f64.to_bits());
    assert!(limiter.check_at(ip, 0, accrue, spend));
    assert!(limiter.check_at(ip, 0, accrue, spend));
    assert!(!limiter.check_at(ip, 0, accrue, spend));
    assert!(limiter.check_at(ip, SECOND, accrue, spend));
    assert!(!limiter.check_at(ip, SECOND, accrue, spend));
}

#[test]
fn grants_stay_within_burst_and_rate() {
    let mut limiter = RateLimiter::new(4.0f64.to_bits(), 2.0f64.to_bits());
    let ip = IpAddr::V4(9);
    let mut granted = 0;
    for i in 0..101u128 {
        if limiter.check_at(ip, i * SECOND / 10, accrue, spend) {
            granted += 1;
        }
    }
    // Ten seconds: a burst of four, and two a second.
    assert!(granted == 23 || granted == 24);
}

#[test]
fn a_new_client_gets_its_whole_burst_whoever_else_asks() {
    let mut limiter = RateLimiter::new(3.0f64.to_bits(), 0.0f64.to_bits());
    let ip = IpAddr::V4(5);
    let mut answers = vec![];
    for _ in 0..4 {
        limiter.check(IpAddr::V4(6), accrue, spend);
        answers.push(limiter.check(ip, accrue, spend));
        limiter.check(IpAddr::V6(5), accrue, spend);
    }
    assert_eq!(answers, vec![true, true, true, false]);
}
