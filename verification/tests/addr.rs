use iron_proxy::addr::{hash_ip, is_below, IpAddr, SocketAddr};
use iron_proxy::health::Endpoint;
use iron_proxy::ranking::sort_endpoints;
use std::collections::hash_map::DefaultHasher;
use std::hash::{Hash, Hasher};

fn v4(ip: u32, port: u16) -> SocketAddr {
    SocketAddr::V4 { ip, port }
}

fn v6(ip6: u128, port: u16, flowinfo: u32, scope_id: u32) -> SocketAddr {
    SocketAddr::V6 { ip6, port, flowinfo, scope_id }
}

fn hash_of(family: isize, octets: &[u8]) -> u64 {
    let mut hasher = DefaultHasher::new();
    family.hash(&mut hasher);
    if octets.len() == 4 {
        u32::from_ne_bytes(octets.try_into().unwrap()).hash(&mut hasher);
    } else {
        u128::from_ne_bytes(octets.try_into().unwrap()).hash(&mut hasher);
    }
    hasher.finish()
}

fn texts(list: &[Endpoint]) -> Vec<String> {
    sort_endpoints(list).into_iter().map(|e| e.text).collect()
}

fn e(addr: SocketAddr, text: &str) -> Endpoint {
    Endpoint { addr, text: text.to_string() }
}

#[test]
fn keys_are_ordered_by_family_ip_port_flow_and_scope() {
    let ascending = [
        v4(1, 2),
        v4(1, 9),
        v4(2, 1),
        v6(0, 9, 9, 9),
        v6(1, 1, 0, 0),
        v6(1, 1, 0, 1),
        v6(1, 1, 1, 0),
    ];
    for i in 0..ascending.len() {
        for j in 0..ascending.len() {
            assert_eq!(is_below(&ascending[i], &ascending[j]), i < j);
        }
    }
}

#[test]
fn backends_sort_alphabetically() {
    let list = [
        e(v4(0x0a00_0009, 80), "10.0.0.9:80"),
        e(v4(0x0a00_000a, 80), "10.0.0.10:80"),
        e(v4(0x0a00_0009, 8080), "10.0.0.9:8080"),
        e(v6(1, 80, 0, 0), "[::1]:80"),
    ];
    assert_eq!(texts(&list), vec!["10.0.0.10:80", "10.0.0.9:80", "10.0.0.9:8080", "[::1]:80"]);
}

#[test]
fn backends_with_one_text_sort_by_their_addresses() {
    let sorted = sort_endpoints(&[e(v4(2, 1), "x"), e(v4(1, 1), "x"), e(v4(3, 1), "a")]);
    let addrs: Vec<SocketAddr> = sorted.iter().map(|e| e.addr).collect();
    assert_eq!(addrs, vec![v4(3, 1), v4(1, 1), v4(2, 1)]);
    assert!(sort_endpoints(&[]).is_empty());
}

#[test]
fn keys_tell_families_apart() {
    assert_eq!(v4(7, 80).key(), (4, 7, 80, 0, 0));
    assert_eq!(v6(7, 80, 1, 2).key(), (6, 7, 80, 1, 2));
    assert_ne!(v4(7, 80).key(), v6(7, 80, 0, 0).key());
}

#[test]
fn client_hash_is_that_of_family_and_octets() {
    for n in [0u32, 1, 0x7f00_0001, 0xc0a8_0132, u32::MAX] {
        assert_eq!(hash_ip(IpAddr::V4(n)), hash_of(0, &n.to_be_bytes()));
    }
    for n in [0u128, 1, 0x2001_0db8_0000_0000_0000_0000_0000_0001, u128::MAX] {
        assert_eq!(hash_ip(IpAddr::V6(n)), hash_of(1, &n.to_be_bytes()));
    }
}

#[test]
fn client_hash_is_stable_and_tells_families_apart() {
    assert_eq!(hash_ip(IpAddr::V4(9)), hash_ip(IpAddr::V4(9)));
    assert_ne!(hash_ip(IpAddr::V4(9)), hash_ip(IpAddr::V6(9)));
    assert_ne!(hash_ip(IpAddr::V4(9)), hash_ip(IpAddr::V4(10)));
}
