//! Which of the healthy backends a list of targets names.

use crate::addr::SocketAddr;
use crate::health::{BackendView, Endpoint, HealthRegistry, HealthStatus};
use crate::text::holds_text;
use crate::{health, lists, text};
use vstd::prelude::*;

verus! {

/// The healthy backends that `targets` names, in the order of their registration.
pub open spec fn open_backends(
    backends: Seq<BackendView>,
    targets: Seq<Seq<char>>,
) -> Seq<BackendView> {
    health::healthy(backends).filter(named_in(targets))
}

/// The addresses of the healthy backends that `targets` names.
pub open spec fn available(backends: Seq<BackendView>, targets: Seq<Seq<char>>) -> Seq<SocketAddr> {
    health::addrs(open_backends(backends, targets))
}

/// The healthy backends that `targets` names, with their texts.
pub open spec fn available_named(backends: Seq<BackendView>, targets: Seq<Seq<char>>) -> Seq<
    (SocketAddr, Seq<char>),
> {
    health::named(open_backends(backends, targets))
}

/// The backends whose text is one of `targets`.
pub open spec fn named_in(targets: Seq<Seq<char>>) -> spec_fn(BackendView) -> bool {
    |b: BackendView| targets.contains(b.text)
}

/// Lists the healthy backends that `targets` names, with their texts.
pub fn available_endpoints(registry: &HealthRegistry, targets: &Vec<String>) -> (r: Vec<Endpoint>)
    ensures
        health::endpoint_views(r@) == available_named(registry@, text::texts(targets@)),
{
    let endpoints = registry.healthy_endpoints();
    let ghost up = health::healthy(registry@);
    let ghost names = named_in(text::texts(targets@));
    let mut r: Vec<Endpoint> = Vec::new();
    let mut i: usize = 0;
    proof {
        reveal(Seq::filter);
        assert(health::endpoint_views(endpoints@).len() == up.len());
        assert(health::endpoint_views(r@) =~= health::named(up.take(0).filter(names)));
    }
    while i < endpoints.len()
        invariant
            i <= endpoints@.len(),
            endpoints@.len() == up.len(),
            health::endpoint_views(endpoints@) == health::named(up),
            names == named_in(text::texts(targets@)),
            health::endpoint_views(r@) == health::named(up.take(i as int).filter(names)),
        decreases endpoints@.len() - i,
    {
        let ghost before = up.take(i as int).filter(names);
        let ghost listed = health::endpoint_views(r@);
        proof {
            reveal(Seq::filter);
            assert(up.take(i + 1).drop_last() =~= up.take(i as int));
            assert(health::endpoint_views(endpoints@)[i as int] == (
                up[i as int].addr,
                up[i as int].text,
            ));
        }
        if holds_text(targets, &endpoints[i].text) {
            r.push(Endpoint { addr: endpoints[i].addr, text: endpoints[i].text.clone() });
            proof {
                assert(health::endpoint_views(r@) =~= listed.push(
                    (up[i as int].addr, up[i as int].text),
                ));
                assert(health::endpoint_views(r@) =~= health::named(before.push(up[i as int])));
            }
        }
        i = i + 1;
    }
    proof {
        assert(up.take(i as int) =~= up);
    }
    r
}

/// The addresses in a list of endpoints.
pub fn addresses_of(list: &Vec<Endpoint>) -> (r: Vec<SocketAddr>)
    ensures
        r@.len() == list@.len(),
        forall|i: int| 0 <= i < list@.len() ==> r@[i] == (#[trigger] list@[i]).addr,
{
    let mut r: Vec<SocketAddr> = Vec::new();
    let mut i: usize = 0;
    while i < list.len()
        invariant
            i <= list@.len(),
            r@.len() == i,
            forall|j: int| 0 <= j < i ==> r@[j] == (#[trigger] list@[j]).addr,
        decreases list@.len() - i,
    {
        r.push(list[i].addr);
        i = i + 1;
    }
    r
}

/// Lists the addresses of the healthy backends that `targets` names.
pub fn available_backends(registry: &HealthRegistry, targets: &Vec<String>) -> (r: Vec<SocketAddr>)
    ensures
        r@ == available(registry@, text::texts(targets@)),
{
    let endpoints = available_endpoints(registry, targets);
    let r = addresses_of(&endpoints);
    proof {
        same_addresses(registry@, text::texts(targets@), endpoints@, r@);
    }
    r
}

/// The addresses of the endpoints that are available are the addresses that are.
pub(crate) proof fn same_addresses(
    backends: Seq<BackendView>,
    targets: Seq<Seq<char>>,
    endpoints: Seq<Endpoint>,
    addresses: Seq<SocketAddr>,
)
    requires
        health::endpoint_views(endpoints) == available_named(backends, targets),
        addresses.len() == endpoints.len(),
        forall|i: int|
            0 <= i < endpoints.len() ==> addresses[i] == (#[trigger] endpoints[i]).addr,
    ensures
        addresses == available(backends, targets),
{
    assert(health::endpoint_views(endpoints).len() == open_backends(backends, targets).len());
    assert forall|i: int| 0 <= i < addresses.len() implies addresses[i] == available(
        backends,
        targets,
    )[i] by {
        assert(health::endpoint_views(endpoints)[i] == available_named(backends, targets)[i]);
        assert(addresses[i] == endpoints[i].addr);
    }
    assert(addresses =~= available(backends, targets));
}

/// A backend is available exactly if it is healthy and one of the targets.
pub proof fn available_are_healthy_targets(
    backends: Seq<BackendView>,
    targets: Seq<Seq<char>>,
    addr: SocketAddr,
)
    ensures
        available(backends, targets).contains(addr) <==> exists|i: int|
            0 <= i < backends.len() && (#[trigger] backends[i]).addr == addr && backends[i].status
                == HealthStatus::Healthy && targets.contains(backends[i].text),
{
    let is_up = |b: BackendView| b.status == HealthStatus::Healthy;
    let named = named_in(targets);
    let up = backends.filter(is_up);
    let chosen = up.filter(named);
    if available(backends, targets).contains(addr) {
        let k = choose|k: int|
            0 <= k < available(backends, targets).len() && available(backends, targets)[k] == addr;
        let b = chosen[k];
        assert(chosen.contains(b));
        up.lemma_filter_contains_rev(named, b);
        up.lemma_filter_pred(named, k);
        let m = choose|m: int| 0 <= m < up.len() && up[m] == b;
        backends.lemma_filter_contains_rev(is_up, b);
        backends.lemma_filter_pred(is_up, m);
        let i = choose|i: int| 0 <= i < backends.len() && backends[i] == b;
        assert(backends[i].addr == addr);
    }
    if exists|i: int|
        0 <= i < backends.len() && (#[trigger] backends[i]).addr == addr && backends[i].status
            == HealthStatus::Healthy && targets.contains(backends[i].text) {
        let i = choose|i: int|
            0 <= i < backends.len() && (#[trigger] backends[i]).addr == addr && backends[i].status
                == HealthStatus::Healthy && targets.contains(backends[i].text);
        backends.lemma_filter_contains(is_up, i);
        let m = choose|m: int| 0 <= m < up.len() && up[m] == backends[i];
        up.lemma_filter_contains(named, m);
        let k = choose|k: int| 0 <= k < chosen.len() && chosen[k] == backends[i];
        assert(available(backends, targets)[k] == addr);
    }
}

/// A backend that is marked dead is not available, whatever the targets are.
pub proof fn dead_backend_is_not_available(
    backends: Seq<BackendView>,
    targets: Seq<Seq<char>>,
    addr: SocketAddr,
)
    ensures
        !available(
            health::with_status(backends, addr, HealthStatus::Dead),
            targets,
        ).contains(addr),
{
    available_are_healthy_targets(
        health::with_status(backends, addr, HealthStatus::Dead),
        targets,
        addr,
    );
}

/// A target that is marked healthy is available.
pub proof fn recovered_target_is_available(
    backends: Seq<BackendView>,
    targets: Seq<Seq<char>>,
    i: int,
)
    requires
        0 <= i < backends.len(),
        targets.contains(backends[i].text),
    ensures
        available(
            health::with_status(backends, backends[i].addr, HealthStatus::Healthy),
            targets,
        ).contains(backends[i].addr),
{
    let after = health::with_status(backends, backends[i].addr, HealthStatus::Healthy);
    available_are_healthy_targets(after, targets, backends[i].addr);
    assert(after[i].addr == backends[i].addr);
}

/// A target that has just been registered is available.
pub proof fn registered_target_is_available(
    backends: Seq<BackendView>,
    list: Seq<(SocketAddr, Seq<char>)>,
    targets: Seq<Seq<char>>,
    i: int,
)
    requires
        0 <= i < list.len(),
        !health::knows(backends, list[i].0),
        forall|j: int|
            0 <= j < list.len() && (#[trigger] list[j]).0 == list[i].0 ==> list[j].1 == list[i].1,
        targets.contains(list[i].1),
    ensures
        available(health::registered_into(backends, list), targets).contains(list[i].0),
{
    let after = health::registered_into(backends, list);
    health::new_backend_is_registered(backends, list, i);
    let k = choose|k: int|
        0 <= k < after.len() && #[trigger] after[k] == (BackendView {
            addr: list[i].0,
            text: list[i].1,
            status: HealthStatus::Healthy,
        });
    available_are_healthy_targets(after, targets, list[i].0);
    assert(after[k].addr == list[i].0);
}

/// The available backends come in the order of their registration: a healthy backend that
/// the targets name stands behind as many as are available before it, and no others are
/// listed.
pub proof fn available_are_in_order(
    registry: HealthRegistry,
    targets: Vec<String>,
    endpoints: Vec<Endpoint>,
    addresses: Vec<SocketAddr>,
    i: int,
)
    requires
        call_ensures(available_endpoints, (&registry, &targets), endpoints),
        call_ensures(available_backends, (&registry, &targets), addresses),
        0 <= i < registry@.len(),
        registry@[i].status == HealthStatus::Healthy,
        text::texts(targets@).contains(registry@[i].text),
    ensures
        ({
            let rule = |b: BackendView|
                b.status == HealthStatus::Healthy && text::texts(targets@).contains(b.text);
            let before = registry@.take(i).filter(rule).len() as int;
            &&& endpoints@.len() == registry@.filter(rule).len()
            &&& addresses@.len() == registry@.filter(rule).len()
            &&& before < endpoints@.len()
            &&& endpoints@[before].addr == registry@[i].addr
            &&& endpoints@[before].text@ == registry@[i].text
            &&& addresses@[before] == registry@[i].addr
        }),
{
    let rule = |b: BackendView|
        b.status == HealthStatus::Healthy && text::texts(targets@).contains(b.text);
    let is_up = |b: BackendView| b.status == HealthStatus::Healthy;
    lists::rules_combine(registry@, is_up, named_in(text::texts(targets@)), rule);
    lists::kept_in_place(registry@, rule, i);
    let before = registry@.take(i).filter(rule).len() as int;
    let open = open_backends(registry@, text::texts(targets@));
    assert(open == registry@.filter(rule));
    assert(health::endpoint_views(endpoints@).len() == endpoints@.len());
    assert(health::endpoint_views(endpoints@)[before] == (
        endpoints@[before].addr,
        endpoints@[before].text@,
    ));
}

} // verus!
