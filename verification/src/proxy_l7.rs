//! The HTTP engine: where a request goes, who is admitted, and how a changed
//! configuration is taken over.

use crate::addr::{IpAddr, SocketAddr};
use crate::config::ProxyConfig;
use crate::health::{BackendView, HealthRegistry, HealthStatus};
use crate::rate_limit::RateLimiter;
use crate::router::{BackendStats, ConnectionTracker};
use crate::selection::{addresses_of, available_endpoints};
use crate::{clock, health, rate_limit, router, selection, text};
use vstd::prelude::*;

verus! {

/// The application protocol that TLS clients are offered.
pub const ALPN_PROTOCOL: &'static str = "http/1.1";

/// What the watcher of the configuration file reports.
#[derive(Clone, Copy, Debug, PartialEq, Eq, Structural)]
pub enum WatchEvent {
    /// The file was modified.
    Modified,
    /// Something else happened to the file.
    Other,
    /// The file could not be watched.
    Failed,
}

/// Whether the configuration is to be read again: only after a modification.
pub fn needs_reload(event: WatchEvent) -> (r: bool)
    ensures
        r == (event == WatchEvent::Modified),
{
    match event {
        WatchEvent::Modified => true,
        _ => false,
    }
}

/// The HTTP proxy.
pub struct L7Proxy {
    /// The configuration in force.
    pub config: ProxyConfig,
    /// The rate limiter, if the proxy was started with one.
    pub rate_limiter: Option<RateLimiter>,
}

/// `choice` is where a request of `client_ip` goes. HTTP requests are served by the
/// first cluster; a sticky cluster pins the client to one of its available
/// targets, and any other sends the request to the cheapest of them.
pub open spec fn is_l7_choice<F: Fn(usize, u64) -> u64>(
    config: ProxyConfig,
    client_ip: IpAddr,
    backends: Seq<BackendView>,
    stats: Map<SocketAddr, BackendStats>,
    cost: F,
    choice: Option<SocketAddr>,
) -> bool {
    if config.clusters@.len() == 0 {
        choice is None
    } else {
        let cluster = config.clusters@[0];
        let open = selection::available(backends, text::texts(cluster.targets@));
        if open.len() == 0 {
            choice is None
        } else if cluster.sticky_sessions {
            choice == router::pinned(
                client_ip,
                selection::available_named(backends, text::texts(cluster.targets@)),
            )
        } else {
            exists|costs: Seq<u64>| #[trigger]
                router::are_costs(stats, open, cost, costs) && choice == Some(
                    open[router::cheapest(costs)],
                )
        }
    }
}

impl L7Proxy {
    /// A proxy for a configuration, with a rate limiter if the configuration asks
    /// for one.
    pub fn new(config: ProxyConfig) -> (r: Self)
        ensures
            r.config == config,
            match (config.rate_limit, r.rate_limiter) {
                (Some(settings), Some(limiter)) => {
                    &&& limiter.bucket_capacity() == settings.capacity
                    &&& limiter.bucket_rate() == settings.refill_rate
                    &&& limiter@.is_empty()
                    &&& limiter.latest() == 0
                    &&& clock::is_instant(limiter.origin())
                },
                (None, None) => true,
                _ => false,
            },
    {
        let rate_limiter = match &config.rate_limit {
            Some(settings) => Some(RateLimiter::new(settings.capacity, settings.refill_rate)),
            None => None,
        };
        L7Proxy { config, rate_limiter }
    }

    /// Where a request of `client_ip` goes; `cost` gives the cost of a backend from
    /// its active requests and its base latency.
    pub fn get_next_backend<F: Fn(usize, u64) -> u64>(
        &self,
        client_ip: IpAddr,
        registry: &HealthRegistry,
        tracker: &ConnectionTracker,
        cost: F,
    ) -> (r: Option<SocketAddr>)
        requires
            forall|active: usize, latency: u64| cost.requires((active, latency)),
        ensures
            is_l7_choice(self.config, client_ip, registry@, tracker@, cost, r),
    {
        if self.config.clusters.len() == 0 {
            return None;
        }
        let cluster = &self.config.clusters[0];
        let endpoints = available_endpoints(registry, &cluster.targets);
        let open = addresses_of(&endpoints);
        proof {
            selection::same_addresses(
                registry@,
                text::texts(cluster.targets@),
                endpoints@,
                open@,
            );
        }
        if open.len() == 0 {
            return None;
        }
        if cluster.sticky_sessions {
            tracker.get_sticky_backend(client_ip, endpoints.as_slice())
        } else {
            tracker.get_best_l7(open.as_slice(), cost)
        }
    }

    /// How often a failed request is tried again.
    pub fn max_retries(&self) -> (r: usize)
        ensures
            r == (if self.config.clusters@.len() > 0 {
                self.config.clusters@[0].max_retries
            } else {
                0
            }),
    {
        if self.config.clusters.len() > 0 {
            self.config.clusters[0].max_retries
        } else {
            0
        }
    }

    /// Whether a request of `client_ip` is admitted: always without a rate limiter,
    /// and otherwise if the client's bucket grants a token.
    pub fn is_permitted<A: Fn(u64, u64, u128) -> u64, S: Fn(u64, u64) -> u64>(
        &mut self,
        client_ip: IpAddr,
        accrue: A,
        spend: S,
    ) -> (r: bool)
        requires
            forall|tokens: u64, rate: u64, nanos: u128| accrue.requires((tokens, rate, nanos)),
            forall|tokens: u64, taken: u64| spend.requires((tokens, taken)),
        ensures
            final(self).config == old(self).config,
            match (old(self).rate_limiter, final(self).rate_limiter) {
                (Some(before), Some(after)) => rate_limit::is_checked(
                    before,
                    after,
                    client_ip,
                    accrue,
                    spend,
                    r,
                ) && rate_limit::reads_its_clock(before, after),
                (None, None) => r,
                _ => false,
            },
    {
        match &mut self.rate_limiter {
            Some(limiter) => limiter.check(client_ip, accrue, spend),
            None => true,
        }
    }

    /// Takes over a configuration that was read again: its routing rules, and its
    /// rate limit, under which clients keep the tokens that they have. Where it could
    /// not be read, the rules in force stay.
    pub fn reload(&mut self, loaded: Option<ProxyConfig>) -> (r: bool)
        ensures
            r == (loaded is Some),
            match loaded {
                Some(config) => {
                    &&& final(self).config == config
                    &&& match (config.rate_limit, final(self).rate_limiter) {
                        (Some(settings), Some(limiter)) => {
                            &&& limiter.bucket_capacity() == settings.capacity
                            &&& limiter.bucket_rate() == settings.refill_rate
                            &&& match old(self).rate_limiter {
                                Some(before) => limiter@ == before@ && limiter.latest()
                                    == before.latest() && limiter.origin() == before.origin(),
                                None => limiter@.is_empty() && limiter.latest() == 0
                                    && clock::is_instant(limiter.origin()),
                            }
                        },
                        (None, None) => true,
                        _ => false,
                    }
                },
                None => *final(self) == *old(self),
            },
    {
        match loaded {
            Some(config) => {
                match &config.rate_limit {
                    Some(settings) => match &mut self.rate_limiter {
                        Some(limiter) => {
                            limiter.reconfigure(settings.capacity, settings.refill_rate);
                        },
                        None => {
                            self.rate_limiter = Some(
                                RateLimiter::new(settings.capacity, settings.refill_rate),
                            );
                        },
                    },
                    None => {
                        self.rate_limiter = None;
                    },
                }
                self.config = config;
                true
            },
            None => false,
        }
    }
}

/// A request goes to a healthy target of the first cluster, whatever the costs
/// are; and it goes somewhere whenever there is one.
pub proof fn l7_choice_is_a_healthy_target<F: Fn(usize, u64) -> u64>(
    config: ProxyConfig,
    client_ip: IpAddr,
    backends: Seq<BackendView>,
    stats: Map<SocketAddr, BackendStats>,
    cost: F,
    choice: Option<SocketAddr>,
)
    requires
        is_l7_choice(config, client_ip, backends, stats, cost, choice),
    ensures
        choice is Some <==> config.clusters@.len() > 0 && selection::available(
            backends,
            text::texts(config.clusters@[0].targets@),
        ).len() > 0,
        choice matches Some(addr) ==> selection::available(
            backends,
            text::texts(config.clusters@[0].targets@),
        ).contains(addr),
{
    if config.clusters@.len() > 0 {
        let cluster = config.clusters@[0];
        let open = selection::available(backends, text::texts(cluster.targets@));
        if open.len() > 0 {
            if cluster.sticky_sessions {
                let named = selection::available_named(
                    backends,
                    text::texts(cluster.targets@),
                );
                router::pinned_is_a_backend(client_ip, named);
                let i = choose|i: int|
                    0 <= i < named.len() && Some((#[trigger] named[i]).0) == choice;
                assert(open[i] == named[i].0);
            } else {
                let costs = choose|costs: Seq<u64>| #[trigger]
                    router::are_costs(stats, open, cost, costs) && choice == Some(
                        open[router::cheapest(costs)],
                    );
                router::cheapest_is_a_place(costs);
                assert(open.contains(open[router::cheapest(costs)]));
            }
        }
    }
}

/// A saved change of the targets takes effect: once the configuration is taken over and
/// its targets are registered, a request goes somewhere, and to a new target if it is
/// the only one available.
pub proof fn new_target_is_served<F: Fn(usize, u64) -> u64>(
    config: ProxyConfig,
    client_ip: IpAddr,
    backends: Seq<BackendView>,
    list: Seq<(SocketAddr, Seq<char>)>,
    stats: Map<SocketAddr, BackendStats>,
    cost: F,
    i: int,
    choice: Option<SocketAddr>,
)
    requires
        config.clusters@.len() > 0,
        0 <= i < list.len(),
        !health::knows(backends, list[i].0),
        forall|j: int|
            0 <= j < list.len() && (#[trigger] list[j]).0 == list[i].0 ==> list[j].1 == list[i].1,
        text::texts(config.clusters@[0].targets@).contains(list[i].1),
        is_l7_choice(
            config,
            client_ip,
            health::registered_into(backends, list),
            stats,
            cost,
            choice,
        ),
    ensures
        choice is Some,
        selection::available(
            health::registered_into(backends, list),
            text::texts(config.clusters@[0].targets@),
        ).contains(list[i].0),
        (forall|addr: SocketAddr| #[trigger]
            selection::available(
                health::registered_into(backends, list),
                text::texts(config.clusters@[0].targets@),
            ).contains(addr) ==> addr == list[i].0) ==> choice == Some(list[i].0),
{
    let after = health::registered_into(backends, list);
    selection::registered_target_is_available(
        backends,
        list,
        text::texts(config.clusters@[0].targets@),
        i,
    );
    l7_choice_is_a_healthy_target(config, client_ip, after, stats, cost, choice);
}

/// From the moment a backend is marked dead, no request goes there, not even that of
/// a client pinned to it.
pub proof fn dead_backend_gets_no_request<F: Fn(usize, u64) -> u64>(
    config: ProxyConfig,
    client_ip: IpAddr,
    backends: Seq<BackendView>,
    stats: Map<SocketAddr, BackendStats>,
    cost: F,
    dead: SocketAddr,
    choice: Option<SocketAddr>,
)
    requires
        is_l7_choice(
            config,
            client_ip,
            health::with_status(backends, dead, HealthStatus::Dead),
            stats,
            cost,
            choice,
        ),
    ensures
        choice != Some(dead),
{
    let after = health::with_status(backends, dead, HealthStatus::Dead);
    l7_choice_is_a_healthy_target(config, client_ip, after, stats, cost, choice);
    if config.clusters@.len() > 0 {
        selection::dead_backend_is_not_available(
            backends,
            text::texts(config.clusters@[0].targets@),
            dead,
        );
    }
}

/// A client of a sticky cluster goes to the same target as long as the same
/// targets are available, whatever the load and the latencies are.
pub proof fn sticky_client_stays<F: Fn(usize, u64) -> u64, G: Fn(usize, u64) -> u64>(
    config: ProxyConfig,
    client_ip: IpAddr,
    backends: Seq<BackendView>,
    stats: Map<SocketAddr, BackendStats>,
    cost: F,
    choice: Option<SocketAddr>,
    later_backends: Seq<BackendView>,
    later_stats: Map<SocketAddr, BackendStats>,
    later_cost: G,
    later_choice: Option<SocketAddr>,
)
    requires
        config.clusters@.len() > 0,
        config.clusters@[0].sticky_sessions,
        is_l7_choice(config, client_ip, backends, stats, cost, choice),
        is_l7_choice(
            config,
            client_ip,
            later_backends,
            later_stats,
            later_cost,
            later_choice,
        ),
        selection::available_named(
            backends,
            text::texts(config.clusters@[0].targets@),
        ).to_multiset() == selection::available_named(
            later_backends,
            text::texts(config.clusters@[0].targets@),
        ).to_multiset(),
    ensures
        choice == later_choice,
{
    let targets = text::texts(config.clusters@[0].targets@);
    let now = selection::available_named(backends, targets);
    let later = selection::available_named(later_backends, targets);
    vstd::seq_lib::to_multiset_len(now);
    vstd::seq_lib::to_multiset_len(later);
    router::pinned_ignores_order(client_ip, now, later);
}

/// A request goes to a registered backend that is healthy and a target of the first
/// cluster, and to one whenever there is such a backend.
pub proof fn l7_serves_healthy_targets<F: Fn(usize, u64) -> u64>(
    proxy: L7Proxy,
    client_ip: IpAddr,
    registry: HealthRegistry,
    tracker: ConnectionTracker,
    cost: F,
    choice: Option<SocketAddr>,
    i: int,
)
    requires
        call_ensures(
            L7Proxy::get_next_backend::<F>,
            (&proxy, client_ip, &registry, &tracker, cost),
            choice,
        ),
        0 <= i < registry@.len(),
    ensures
        proxy.config.clusters@.len() == 0 ==> choice is None,
        choice matches Some(addr) ==> exists|k: int|
            0 <= k < registry@.len() && (#[trigger] registry@[k]).addr == addr
                && registry@[k].status == HealthStatus::Healthy && text::texts(
                proxy.config.clusters@[0].targets@,
            ).contains(registry@[k].text),
        proxy.config.clusters@.len() > 0 && registry@[i].status == HealthStatus::Healthy
            && text::texts(proxy.config.clusters@[0].targets@).contains(registry@[i].text)
            ==> choice is Some,
{
    l7_choice_is_a_healthy_target(
        proxy.config,
        client_ip,
        registry@,
        tracker@,
        cost,
        choice,
    );
    if proxy.config.clusters@.len() > 0 {
        let targets = text::texts(proxy.config.clusters@[0].targets@);
        selection::available_are_healthy_targets(registry@, targets, registry@[i].addr);
        if choice is Some {
            selection::available_are_healthy_targets(registry@, targets, choice->0);
        }
    }
}

/// Without sticky sessions, a request does not go to a target that has a higher average
/// latency than another available one with equally many requests under way: this holds for
/// every cost function that gives numbers and grows with the latency.
pub proof fn request_does_not_go_to_a_slower_target<F: Fn(usize, u64) -> u64>(
    proxy: L7Proxy,
    client_ip: IpAddr,
    registry: HealthRegistry,
    tracker: ConnectionTracker,
    cost: F,
    choice: Option<SocketAddr>,
    fast: SocketAddr,
    slow: SocketAddr,
)
    requires
        call_ensures(
            L7Proxy::get_next_backend::<F>,
            (&proxy, client_ip, &registry, &tracker, cost),
            choice,
        ),
        proxy.config.clusters@.len() > 0,
        !proxy.config.clusters@[0].sticky_sessions,
        selection::available(
            registry@,
            text::texts(proxy.config.clusters@[0].targets@),
        ).contains(fast),
        tracker@.contains_key(fast),
        tracker@.contains_key(slow),
        tracker@[fast].active_requests == tracker@[slow].active_requests,
        tracker@[fast].ewma_latency_bits != 0,
        tracker@[fast].ewma_latency_bits != 0x8000_0000_0000_0000,
        tracker@[slow].ewma_latency_bits != 0,
        tracker@[slow].ewma_latency_bits != 0x8000_0000_0000_0000,
        crate::float_bits::less(
            tracker@[fast].ewma_latency_bits,
            tracker@[slow].ewma_latency_bits,
        ),
        forall|active: usize, latency: u64, value: u64| #[trigger]
            cost.ensures((active, latency), value) ==> crate::float_bits::is_number(value),
        forall|active: usize, low: u64, high: u64, x: u64, y: u64| #[trigger]
            cost.ensures((active, low), x) && #[trigger] cost.ensures((active, high), y)
                && crate::float_bits::less(low, high) ==> crate::float_bits::less(x, y),
    ensures
        choice is Some,
        choice != Some(slow),
{
    let open = selection::available(
        registry@,
        text::texts(proxy.config.clusters@[0].targets@),
    );
    let costs = choose|costs: Seq<u64>| #[trigger]
        router::are_costs(tracker@, open, cost, costs) && choice == Some(
            open[router::cheapest(costs)],
        );
    router::slower_backend_is_not_cheapest(tracker@, open, cost, costs, fast, slow);
}

/// With sticky sessions, a request goes by the client alone: where `sorted` holds the
/// available targets with each text before the ones that follow, it goes to the one at the
/// place of the client's hash, taken modulo their number.
pub proof fn sticky_request_goes_by_the_client<F: Fn(usize, u64) -> u64>(
    proxy: L7Proxy,
    client_ip: IpAddr,
    registry: HealthRegistry,
    tracker: ConnectionTracker,
    cost: F,
    choice: Option<SocketAddr>,
    sorted: Seq<(SocketAddr, Seq<char>)>,
)
    requires
        call_ensures(
            L7Proxy::get_next_backend::<F>,
            (&proxy, client_ip, &registry, &tracker, cost),
            choice,
        ),
        proxy.config.clusters@.len() > 0,
        proxy.config.clusters@[0].sticky_sessions,
        sorted.to_multiset() == selection::available_named(
            registry@,
            text::texts(proxy.config.clusters@[0].targets@),
        ).to_multiset(),
        forall|i: int, j: int|
            0 <= i < j < sorted.len() ==> text::precedes(
                (#[trigger] sorted[i]).1,
                (#[trigger] sorted[j]).1,
            ),
    ensures
        sorted.len() > 0 ==> choice == Some(
            sorted[(crate::addr::ip_hash(client_ip) as usize) as int % sorted.len() as int].0,
        ),
        sorted.len() == 0 ==> choice is None,
{
    let named = selection::available_named(
        registry@,
        text::texts(proxy.config.clusters@[0].targets@),
    );
    let order = crate::ranking::text_order();
    assert(vstd::relations::sorted_by(sorted, order)) by {
        assert forall|i: int, j: int| 0 <= i < j < sorted.len() implies #[trigger] order(
            sorted[i],
            sorted[j],
        ) by {
            assert(text::precedes(sorted[i].1, sorted[j].1));
        }
    }
    crate::ranking::ranked_is_unique(named, sorted);
}

/// A request may be tried again as often as the first cluster says, and not at all without
/// a cluster.
pub proof fn retries_are_those_of_the_first_cluster(proxy: L7Proxy, retries: usize)
    requires
        call_ensures(L7Proxy::max_retries, (&proxy,), retries),
    ensures
        proxy.config.clusters@.len() > 0 ==> retries == proxy.config.clusters@[0].max_retries,
        proxy.config.clusters@.len() == 0 ==> retries == 0,
{
}

/// What a reload leaves: the configuration that was read, with its rate limit in force and
/// the tokens of the clients kept, if there was a limit before; where none could be read,
/// everything as it was.
pub proof fn rules_are_taken_over(proxy: &mut L7Proxy, loaded: Option<ProxyConfig>, taken: bool)
    requires
        call_ensures(L7Proxy::reload, (proxy, loaded), taken),
    ensures
        taken <==> loaded is Some,
        loaded is None ==> *final(proxy) == *old(proxy),
        loaded matches Some(config) ==> {
            &&& final(proxy).config == config
            &&& final(proxy).rate_limiter is Some <==> config.rate_limit is Some
            &&& config.rate_limit matches Some(settings) ==> {
                let limiter = final(proxy).rate_limiter->0;
                &&& limiter.bucket_capacity() == settings.capacity
                &&& limiter.bucket_rate() == settings.refill_rate
                &&& old(proxy).rate_limiter matches Some(before) ==> limiter@ == before@
                    && limiter.latest() == before.latest() && limiter.origin()
                    == before.origin()
                &&& old(proxy).rate_limiter is None ==> limiter@.is_empty()
            }
        },
{
}

/// A proxy begins with the configuration that it is given, and with a limiter that has
/// seen no client exactly if the configuration sets a rate limit.
pub proof fn proxy_begins_with_its_rules(config: ProxyConfig, proxy: L7Proxy)
    requires
        call_ensures(L7Proxy::new, (config,), proxy),
    ensures
        proxy.config == config,
        proxy.rate_limiter is Some <==> config.rate_limit is Some,
        config.rate_limit matches Some(settings) ==> {
            &&& proxy.rate_limiter->0@.is_empty()
            &&& proxy.rate_limiter->0.bucket_capacity() == settings.capacity
            &&& proxy.rate_limiter->0.bucket_rate() == settings.refill_rate
            &&& clock::is_instant(proxy.rate_limiter->0.origin())
        },
{
}

/// Without a rate limit every request is admitted; with one the client's bucket is asked
/// for one token, at a reading of the limiter's clock, and decides.
pub proof fn limiter_decides<A: Fn(u64, u64, u128) -> u64, S: Fn(u64, u64) -> u64>(
    proxy: &mut L7Proxy,
    client_ip: IpAddr,
    accrue: A,
    spend: S,
    permitted: bool,
)
    requires
        call_ensures(
            L7Proxy::is_permitted::<A, S>,
            (proxy, client_ip, accrue, spend),
            permitted,
        ),
    ensures
        final(proxy).config == old(proxy).config,
        old(proxy).rate_limiter is None ==> permitted && final(proxy).rate_limiter is None,
        old(proxy).rate_limiter matches Some(before) ==> {
            let after = final(proxy).rate_limiter->0;
            &&& final(proxy).rate_limiter is Some
            &&& rate_limit::reads_its_clock(before, after)
            &&& rate_limit::is_consumed(
                before.bucket_of(client_ip, after.latest()),
                0x3ff0_0000_0000_0000,
                after.latest(),
                accrue,
                spend,
                after@[client_ip],
                permitted,
            )
        },
{
}

/// The configuration is read again exactly when its file was modified.
pub proof fn modification_calls_for_a_reload(event: WatchEvent, reload: bool)
    requires
        call_ensures(needs_reload, (event,), reload),
    ensures
        event is Modified ==> reload,
        event is Other ==> !reload,
        event is Failed ==> !reload,
{
}

} // verus!
