//! IP and socket addresses as plain numbers, the order of their keys, and the hash
//! of a client address.

use std::collections::hash_map::DefaultHasher;
use std::hash::Hasher;
use vstd::prelude::*;
use vstd::std_specs::hash::DefaultHasherAdditionalSpecFns;

verus! {

/// An IP address; the number holds the octets in network order.
#[derive(Clone, Copy, Debug, PartialEq, Eq, Structural, Hash)]
pub enum IpAddr {
    /// An IPv4 address.
    V4(u32),
    /// An IPv6 address.
    V6(u128),
}

/// A socket address: an IP address and a port.
#[derive(Clone, Copy, Debug, PartialEq, Eq, Structural, Hash)]
pub enum SocketAddr {
    /// An IPv4 socket address.
    V4 {
        /// The IP address, in network order.
        ip: u32,
        /// The port.
        port: u16,
    },
    /// An IPv6 socket address.
    V6 {
        /// The IP address, in network order.
        ip6: u128,
        /// The port.
        port: u16,
        /// The flow information.
        flowinfo: u32,
        /// The scope identifier.
        scope_id: u32,
    },
}

/// What identifies a socket address: its family, IP address, port, flow
/// information and scope.
pub type AddrKey = (u8, u128, u16, u32, u32);

impl SocketAddr {
    /// The numbers that identify this address.
    pub open spec fn key_of(self) -> AddrKey {
        match self {
            SocketAddr::V4 { ip, port } => (4u8, ip as u128, port, 0u32, 0u32),
            SocketAddr::V6 { ip6, port, flowinfo, scope_id } => (6u8, ip6, port, flowinfo, scope_id),
        }
    }

    /// The numbers that identify this address.
    pub fn key(&self) -> (r: AddrKey)
        ensures
            r == self.key_of(),
    {
        match *self {
            SocketAddr::V4 { ip, port } => (4u8, ip as u128, port, 0u32, 0u32),
            SocketAddr::V6 { ip6, port, flowinfo, scope_id } => (6u8, ip6, port, flowinfo, scope_id),
        }
    }
}

/// Two addresses with the same key are the same address.
pub proof fn key_identifies(a: SocketAddr, b: SocketAddr)
    ensures
        a.key_of() == b.key_of() <==> a == b,
{
}

/// Keys are ordered by family, then IP address, port, flow information, scope.
pub open spec fn key_less(x: AddrKey, y: AddrKey) -> bool {
    ||| x.0 < y.0
    ||| x.0 == y.0 && x.1 < y.1
    ||| x.0 == y.0 && x.1 == y.1 && x.2 < y.2
    ||| x.0 == y.0 && x.1 == y.1 && x.2 == y.2 && x.3 < y.3
    ||| x.0 == y.0 && x.1 == y.1 && x.2 == y.2 && x.3 == y.3 && x.4 < y.4
}

/// Whether the key of `a` is below that of `b`.
pub fn is_below(a: &SocketAddr, b: &SocketAddr) -> (r: bool)
    ensures
        r == key_less(a.key_of(), b.key_of()),
{
    let x = a.key();
    let y = b.key();
    x.0 < y.0 || (x.0 == y.0 && (x.1 < y.1 || (x.1 == y.1 && (x.2 < y.2 || (x.2 == y.2 && (x.3 < y.3
        || (x.3 == y.3 && x.4 < y.4)))))))
}

/// The lowest `len` octets of `n`, the highest of them first.
pub open spec fn octets(n: nat, len: nat) -> Seq<u8>
    decreases len,
{
    if len == 0 {
        Seq::empty()
    } else {
        octets(n / 256, (len - 1) as nat).push((n % 256) as u8)
    }
}

fn octets_of(n: u128, len: usize) -> (r: Vec<u8>)
    ensures
        r@ == octets(n as nat, len as nat),
    decreases len,
{
    if len == 0 {
        Vec::new()
    } else {
        let mut r = octets_of(n / 256, len - 1);
        r.push((n % 256) as u8);
        r
    }
}

/// What a client address is hashed from: the position of its family among the
/// families, as eight octets with the lowest first, and the octets of the
/// address.
pub open spec fn hash_input(ip: IpAddr) -> Seq<Seq<u8>> {
    match ip {
        IpAddr::V4(n) => seq![seq![0u8, 0, 0, 0, 0, 0, 0, 0], octets(n as nat, 4)],
        IpAddr::V6(n) => seq![seq![1u8, 0, 0, 0, 0, 0, 0, 0], octets(n as nat, 16)],
    }
}

/// The hash of a client address.
pub open spec fn ip_hash(ip: IpAddr) -> u64 {
    DefaultHasher::spec_finish(hash_input(ip))
}

/// Hashes a client address. The hash of an address is the same on every call.
pub fn hash_ip(ip: IpAddr) -> (r: u64)
    ensures
        r == ip_hash(ip),
{
    let mut hasher = DefaultHasher::new();
    let (family, number, len): (u8, u128, usize) = match ip {
        IpAddr::V4(n) => (0u8, n as u128, 4usize),
        IpAddr::V6(n) => (1u8, n, 16usize),
    };
    let tag: Vec<u8> = vec![family, 0u8, 0u8, 0u8, 0u8, 0u8, 0u8, 0u8];
    let address = octets_of(number, len);
    hasher.write(tag.as_slice());
    hasher.write(address.as_slice());
    proof {
        assert(hasher@ =~= hash_input(ip));
        assert(hasher@[0] =~= hash_input(ip)[0]);
    }
    hasher.finish()
}

spec fn room(len: nat) -> nat
    decreases len,
{
    if len == 0 {
        1
    } else {
        256 * room((len - 1) as nat)
    }
}

proof fn octets_tell_numbers_apart(n: nat, m: nat, len: nat)
    requires
        octets(n, len) == octets(m, len),
        n < room(len),
        m < room(len),
    ensures
        n == m,
    decreases len,
{
    if len > 0 {
        let a = octets(n / 256, (len - 1) as nat);
        let b = octets(m / 256, (len - 1) as nat);
        let x = a.push((n % 256) as u8);
        let y = b.push((m % 256) as u8);
        assert(x == y);
        octets_len(n / 256, (len - 1) as nat);
        octets_len(m / 256, (len - 1) as nat);
        assert(x.drop_last() =~= a && y.drop_last() =~= b);
        assert(x.last() == y.last());
        octets_tell_numbers_apart(n / 256, m / 256, (len - 1) as nat);
    }
}

proof fn octets_len(n: nat, len: nat)
    ensures
        octets(n, len).len() == len,
    decreases len,
{
    if len > 0 {
        octets_len(n / 256, (len - 1) as nat);
    }
}

/// Each client is hashed from something of its own: two addresses with the same input to
/// the hash are the same address.
pub proof fn clients_are_hashed_apart(a: IpAddr, b: IpAddr)
    requires
        hash_input(a) == hash_input(b),
    ensures
        a == b,
{
    let x = hash_input(a);
    let y = hash_input(b);
    assert(x[0] == y[0] && x[1] == y[1]);
    assert(x[0][0] == y[0][0]);
    assert(room(4) == 0x1_0000_0000) by {
        reveal_with_fuel(room, 5);
    }
    assert(room(16) == 0x1_0000_0000_0000_0000_0000_0000_0000_0000) by {
        reveal_with_fuel(room, 17);
    }
    match (a, b) {
        (IpAddr::V4(n), IpAddr::V4(m)) => {
            octets_tell_numbers_apart(n as nat, m as nat, 4);
        },
        (IpAddr::V6(n), IpAddr::V6(m)) => {
            octets_tell_numbers_apart(n as nat, m as nat, 16);
        },
        _ => {},
    }
}

/// The hash of a client goes by its address alone, through the input to the hash.
pub proof fn hash_goes_by_the_address(a: IpAddr, b: IpAddr, x: u64, y: u64)
    requires
        call_ensures(hash_ip, (a,), x),
        call_ensures(hash_ip, (b,), y),
        hash_input(a) == hash_input(b),
    ensures
        x == y,
        x == DefaultHasher::spec_finish(hash_input(a)),
{
}

/// The last octet of a number is its remainder by 256, and those before it are the octets
/// of the quotient; there are as many as asked for.
pub proof fn octets_are_in_network_order(n: nat, len: nat, i: int)
    requires
        0 <= i < len,
    ensures
        octets(n, len).len() == len,
        octets(n, len)[i] as int == (n as int / places((len - 1 - i) as nat) as int) % 256,
    decreases len,
{
    octets_len(n, len);
    octets_len(n / 256, (len - 1) as nat);
    if i < len - 1 {
        octets_are_in_network_order(n / 256, (len - 1) as nat, i);
        let p = places((len - 2 - i) as nat) as int;
        places_positive((len - 2 - i) as nat);
        assert((n as int / 256) / p == n as int / (256 * p)) by {
            vstd::arithmetic::div_mod::lemma_div_denominator(n as int, 256, p);
        }
        assert(places((len - 1 - i) as nat) == 256 * p);
        assert(octets(n, len)[i] == octets(n / 256, (len - 1) as nat)[i]);
    } else {
        assert(places(0) == 1);
        assert(n as int / 1 == n) by (nonlinear_arith);
        assert((n % 256) as u8 as int == n % 256);
    }
}

/// What the digit at a place counts for: 256 for each place to its right.
pub open spec fn places(k: nat) -> nat
    decreases k,
{
    if k == 0 {
        1
    } else {
        256 * places((k - 1) as nat)
    }
}

proof fn places_positive(k: nat)
    ensures
        places(k) > 0,
    decreases k,
{
    if k > 0 {
        places_positive((k - 1) as nat);
    }
}

/// A client is hashed from eight octets for its family, 0 or 1 and zeros behind it, and the
/// octets of its address in network order.
pub proof fn hash_is_that_of_family_and_octets(ip: IpAddr, hash: u64)
    requires
        call_ensures(hash_ip, (ip,), hash),
    ensures
        ip matches IpAddr::V4(n) ==> hash == DefaultHasher::spec_finish(
            seq![
                seq![0u8, 0, 0, 0, 0, 0, 0, 0],
                Seq::new(4, |i: int| ((n as int / places((3 - i) as nat) as int) % 256) as u8),
            ],
        ),
        ip matches IpAddr::V6(n) ==> hash == DefaultHasher::spec_finish(
            seq![
                seq![1u8, 0, 0, 0, 0, 0, 0, 0],
                Seq::new(16, |i: int| ((n as int / places((15 - i) as nat) as int) % 256) as u8),
            ],
        ),
{
    match ip {
        IpAddr::V4(n) => {
            let list = Seq::new(
                4,
                |i: int| ((n as int / places((3 - i) as nat) as int) % 256) as u8,
            );
            octets_len(n as nat, 4);
            assert forall|i: int| 0 <= i < 4 implies list[i] == #[trigger] octets(
                n as nat,
                4,
            )[i] by {
                octets_are_in_network_order(n as nat, 4, i);
            }
            assert(list =~= octets(n as nat, 4));
        },
        IpAddr::V6(n) => {
            let list = Seq::new(
                16,
                |i: int| ((n as int / places((15 - i) as nat) as int) % 256) as u8,
            );
            octets_len(n as nat, 16);
            assert forall|i: int| 0 <= i < 16 implies list[i] == #[trigger] octets(
                n as nat,
                16,
            )[i] by {
                octets_are_in_network_order(n as nat, 16, i);
            }
            assert(list =~= octets(n as nat, 16));
        },
    }
}

} // verus!
