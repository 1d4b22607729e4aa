//! The TCP engine: each connection goes to the target with the fewest
//! connections under way.

use crate::addr::SocketAddr;
use crate::clock::ClockError;
use crate::config::TcpServerConfig;
use crate::health::{BackendView, HealthRegistry, HealthStatus};
use crate::router::{BackendStats, ConnectionTracker};
use crate::selection::available_backends;
use crate::text::{copy_texts, same_text};
use crate::{clock, health, router, selection, text};
use vstd::prelude::*;

verus! {

/// A TCP proxy.
pub struct L4Proxy {
    /// The listener and its targets.
    pub config: TcpServerConfig,
}

/// `choice` is where a connection goes: to the first of the available targets
/// with the fewest requests under way, and nowhere if none is available.
pub open spec fn is_l4_choice(
    backends: Seq<BackendView>,
    stats: Map<SocketAddr, BackendStats>,
    targets: Seq<Seq<char>>,
    choice: Option<SocketAddr>,
) -> bool {
    let open = selection::available(backends, targets);
    if open.len() == 0 {
        choice is None
    } else {
        exists|i: int|
            #[trigger] router::is_first_least(router::loads(stats, open), i) && choice == Some(
                open[i],
            )
    }
}

/// A new connection can go to a target without metrics.
pub open spec fn is_l4_choice_unseen(
    backends: Seq<BackendView>,
    stats: Map<SocketAddr, BackendStats>,
    targets: Seq<Seq<char>>,
) -> bool {
    exists|addr: SocketAddr| #[trigger]
        is_l4_choice(backends, stats, targets, Some(addr)) && !stats.contains_key(addr)
}

/// Where the server that listens on `bind_addr` and `port` first stands in `servers`;
/// the length of `servers` if it does not.
pub open spec fn place_of(servers: Seq<TcpServerConfig>, bind_addr: Seq<char>, port: u16) -> int
    decreases servers.len(),
{
    if servers.len() == 0 || (servers.first().bind_addr@ == bind_addr && servers.first().port
        == port) {
        0
    } else {
        1 + place_of(servers.drop_first(), bind_addr, port)
    }
}

impl L4Proxy {
    /// The targets of the proxy.
    pub open spec fn targets(&self) -> Seq<Seq<char>> {
        text::texts(self.config.targets@)
    }

    /// A proxy for a configuration.
    pub fn new(config: TcpServerConfig) -> (r: Self)
        ensures
            r.config == config,
    {
        L4Proxy { config }
    }

    /// Takes over the targets of the server with the same listener in a configuration
    /// that was read again; says whether there is one. Without one the targets stay.
    pub fn reload(&mut self, servers: &Vec<TcpServerConfig>) -> (r: bool)
        ensures
            final(self).config.bind_addr == old(self).config.bind_addr,
            final(self).config.port == old(self).config.port,
            ({
                let p = place_of(servers@, old(self).config.bind_addr@, old(self).config.port);
                if p < servers@.len() {
                    r && final(self).targets() == text::texts(servers@[p].targets@)
                } else {
                    !r && *final(self) == *old(self)
                }
            }),
    {
        let ghost bind = self.config.bind_addr@;
        let ghost port = self.config.port;
        let mut i: usize = 0;
        proof {
            assert(servers@.skip(0) =~= servers@);
        }
        while i < servers.len()
            invariant
                i <= servers@.len(),
                *self == *old(self),
                bind == self.config.bind_addr@,
                port == self.config.port,
                place_of(servers@, bind, port) == i + place_of(servers@.skip(i as int), bind, port),
            decreases servers@.len() - i,
        {
            let server = &servers[i];
            if server.port == self.config.port && same_text(
                server.bind_addr.as_str(),
                self.config.bind_addr.as_str(),
            ) {
                self.config.targets = copy_texts(&server.targets);
                return true;
            }
            proof {
                assert(servers@.skip(i as int).drop_first() =~= servers@.skip(i + 1));
            }
            i = i + 1;
        }
        false
    }

    /// Where the next connection goes.
    pub fn get_next_backend(
        &self,
        registry: &HealthRegistry,
        tracker: &ConnectionTracker,
    ) -> (r: Option<SocketAddr>)
        ensures
            is_l4_choice(registry@, tracker@, self.targets(), r),
    {
        let open = available_backends(registry, &self.config.targets);
        if open.len() == 0 {
            return None;
        }
        tracker.get_best_l4(open.as_slice())
    }

    /// Chooses where a new connection at `now_ms` goes, and counts it there.
    pub fn open_at(
        &self,
        registry: &HealthRegistry,
        tracker: &mut ConnectionTracker,
        now_ms: u64,
    ) -> (r: Option<SocketAddr>)
        ensures
            is_l4_choice(registry@, old(tracker)@, self.targets(), r),
            final(tracker)@ == (match r {
                Some(addr) => router::begun(old(tracker)@, addr, now_ms),
                None => old(tracker)@,
            }),
    {
        let choice = self.get_next_backend(registry, tracker);
        if let Some(addr) = choice {
            tracker.inc_at(addr, now_ms);
        }
        choice
    }

    /// Chooses where a new connection goes, and counts it there; an error where the
    /// system clock, which is read for a target without metrics, is set before the
    /// Unix epoch.
    pub fn open(&self, registry: &HealthRegistry, tracker: &mut ConnectionTracker) -> (r: Result<
        Option<SocketAddr>,
        ClockError,
    >)
        ensures
            match r {
                Ok(choice) => {
                    &&& is_l4_choice(registry@, old(tracker)@, self.targets(), choice)
                    &&& choice is None ==> final(tracker)@ == old(tracker)@
                    &&& choice matches Some(addr) ==> exists|now_ms: u64|
                        final(tracker)@ == #[trigger] router::begun(old(tracker)@, addr, now_ms)
                            && (!old(tracker)@.contains_key(addr) ==> clock::shows(Ok(now_ms)))
                },
                Err(e) => {
                    &&& clock::shows(Err(e))
                    &&& final(tracker)@ == old(tracker)@
                    &&& is_l4_choice_unseen(registry@, old(tracker)@, self.targets())
                },
            },
    {
        match self.get_next_backend(registry, tracker) {
            Some(addr) => match tracker.inc(addr) {
                Ok(()) => Ok(Some(addr)),
                Err(e) => Err(e),
            },
            None => Ok(None),
        }
    }
}

/// A connection goes to a healthy target, and to the least loaded of them.
pub proof fn l4_choice_is_a_healthy_target(
    backends: Seq<BackendView>,
    stats: Map<SocketAddr, BackendStats>,
    targets: Seq<Seq<char>>,
    addr: SocketAddr,
    other: SocketAddr,
)
    requires
        is_l4_choice(backends, stats, targets, Some(addr)),
        selection::available(backends, targets).contains(other),
    ensures
        selection::available(backends, targets).contains(addr),
        router::load_of(stats, addr) <= router::load_of(stats, other),
{
    let open = selection::available(backends, targets);
    let counts = router::loads(stats, open);
    let i = choose|i: int| #[trigger] router::is_first_least(counts, i) && addr == open[i];
    let j = choose|j: int| 0 <= j < open.len() && open[j] == other;
    assert(open.contains(open[i]));
    assert(counts[i] <= counts[j]);
}

/// Whenever a target is available, a connection goes somewhere.
pub proof fn l4_serves_while_a_target_is_up(
    backends: Seq<BackendView>,
    stats: Map<SocketAddr, BackendStats>,
    targets: Seq<Seq<char>>,
    choice: Option<SocketAddr>,
)
    requires
        is_l4_choice(backends, stats, targets, choice),
    ensures
        choice is Some <==> selection::available(backends, targets).len() > 0,
{
}

/// A saved change of the targets takes effect: once the new targets are registered, a
/// connection goes somewhere, and to a new target if it is the only one available.
pub proof fn l4_new_target_is_served(
    backends: Seq<BackendView>,
    list: Seq<(SocketAddr, Seq<char>)>,
    stats: Map<SocketAddr, BackendStats>,
    targets: Seq<Seq<char>>,
    i: int,
    choice: Option<SocketAddr>,
)
    requires
        0 <= i < list.len(),
        !health::knows(backends, list[i].0),
        forall|j: int|
            0 <= j < list.len() && (#[trigger] list[j]).0 == list[i].0 ==> list[j].1 == list[i].1,
        targets.contains(list[i].1),
        is_l4_choice(health::registered_into(backends, list), stats, targets, choice),
    ensures
        choice is Some,
        (forall|addr: SocketAddr| #[trigger]
            selection::available(health::registered_into(backends, list), targets).contains(addr)
                ==> addr == list[i].0) ==> choice == Some(list[i].0),
        router::load_of(stats, choice->0) <= router::load_of(stats, list[i].0),
{
    let after = health::registered_into(backends, list);
    selection::registered_target_is_available(backends, list, targets, i);
    l4_choice_is_a_healthy_target(after, stats, targets, choice->0, list[i].0);
}

/// From the moment a backend is marked dead, no connection goes there.
pub proof fn dead_backend_gets_no_connection(
    backends: Seq<BackendView>,
    stats: Map<SocketAddr, BackendStats>,
    targets: Seq<Seq<char>>,
    dead: SocketAddr,
    choice: Option<SocketAddr>,
)
    requires
        is_l4_choice(
            health::with_status(backends, dead, HealthStatus::Dead),
            stats,
            targets,
            choice,
        ),
    ensures
        choice != Some(dead),
{
    let after = health::with_status(backends, dead, HealthStatus::Dead);
    let open = selection::available(after, targets);
    selection::dead_backend_is_not_available(backends, targets, dead);
    if open.len() > 0 {
        let i = choose|i: int|
            #[trigger] router::is_first_least(router::loads(stats, open), i) && choice == Some(
                open[i],
            );
        assert(open.contains(open[i]));
    }
}

/// A connection goes to a registered backend that is healthy and one of the targets, and
/// to one whenever there is such a backend; no other such backend has fewer requests under
/// way.
pub proof fn l4_serves_the_least_loaded_healthy_target(
    proxy: L4Proxy,
    registry: HealthRegistry,
    tracker: ConnectionTracker,
    choice: Option<SocketAddr>,
    i: int,
)
    requires
        call_ensures(L4Proxy::get_next_backend, (&proxy, &registry, &tracker), choice),
        0 <= i < registry@.len(),
    ensures
        choice matches Some(addr) ==> exists|k: int|
            0 <= k < registry@.len() && (#[trigger] registry@[k]).addr == addr
                && registry@[k].status == health::HealthStatus::Healthy
                && text::texts(proxy.config.targets@).contains(registry@[k].text),
        registry@[i].status == health::HealthStatus::Healthy && text::texts(
            proxy.config.targets@,
        ).contains(registry@[i].text) ==> {
            &&& choice is Some
            &&& tracker@.contains_key(choice->0) && tracker@[choice->0].active_requests > 0
                ==> tracker@.contains_key(registry@[i].addr)
                && tracker@[choice->0].active_requests
                <= tracker@[registry@[i].addr].active_requests
        },
{
    let targets = text::texts(proxy.config.targets@);
    let open = selection::available(registry@, targets);
    selection::available_are_healthy_targets(registry@, targets, registry@[i].addr);
    if choice is Some {
        let c = choose|c: int|
            #[trigger] router::is_first_least(router::loads(tracker@, open), c) && choice == Some(
                open[c],
            );
        assert(open.contains(open[c]));
        selection::available_are_healthy_targets(registry@, targets, choice->0);
    }
    if registry@[i].status == health::HealthStatus::Healthy && targets.contains(
        registry@[i].text,
    ) {
        assert(open.contains(registry@[i].addr));
        l4_choice_is_a_healthy_target(
            registry@,
            tracker@,
            targets,
            choice->0,
            registry@[i].addr,
        );
    }
}

/// The server that a proxy takes its targets from has the proxy's own listener: the same
/// address and the same port, and it is the first that has. There is none only if no
/// server has it.
pub proof fn targets_come_from_the_own_listener(
    servers: Seq<TcpServerConfig>,
    bind_addr: Seq<char>,
    port: u16,
)
    ensures
        0 <= place_of(servers, bind_addr, port) <= servers.len(),
        place_of(servers, bind_addr, port) < servers.len() ==> servers[place_of(
            servers,
            bind_addr,
            port,
        )].bind_addr@ == bind_addr && servers[place_of(servers, bind_addr, port)].port == port,
        forall|i: int|
            0 <= i < place_of(servers, bind_addr, port) ==> (#[trigger] servers[i]).bind_addr@
                != bind_addr || servers[i].port != port,
    decreases servers.len(),
{
    if servers.len() > 0 && !(servers.first().bind_addr@ == bind_addr && servers.first().port
        == port) {
        let rest = servers.drop_first();
        targets_come_from_the_own_listener(rest, bind_addr, port);
        assert forall|i: int| 0 <= i < place_of(servers, bind_addr, port) implies (
        #[trigger] servers[i]).bind_addr@ != bind_addr || servers[i].port != port by {
            if i > 0 {
                assert(rest[i - 1] == servers[i]);
            }
        }
    }
}

/// What a reload leaves: the targets of the first server with the proxy's own address and
/// port, if there is one, and otherwise everything as it was.
pub proof fn targets_are_taken_over(
    proxy: &mut L4Proxy,
    servers: Vec<TcpServerConfig>,
    found: bool,
    i: int,
)
    requires
        call_ensures(L4Proxy::reload, (proxy, &servers), found),
        0 <= i <= servers@.len(),
        forall|k: int|
            0 <= k < i ==> (#[trigger] servers@[k]).bind_addr@ != old(proxy).config.bind_addr@
                || servers@[k].port != old(proxy).config.port,
    ensures
        final(proxy).config.bind_addr@ == old(proxy).config.bind_addr@,
        final(proxy).config.port == old(proxy).config.port,
        i == servers@.len() ==> !found && *final(proxy) == *old(proxy),
        i < servers@.len() && servers@[i].bind_addr@ == old(proxy).config.bind_addr@
            && servers@[i].port == old(proxy).config.port ==> found && text::texts(
            final(proxy).config.targets@) == text::texts(servers@[i].targets@),
{
    let bind = old(proxy).config.bind_addr@;
    let port = old(proxy).config.port;
    targets_come_from_the_own_listener(servers@, bind, port);
    let p = place_of(servers@, bind, port);
    if p < i {
        assert(servers@[p].bind_addr@ == bind && servers@[p].port == port);
    }
    if i < p {
        assert(servers@[i].bind_addr@ != bind || servers@[i].port != port);
    }
}

/// What a new connection leaves: it goes to a healthy target, where there is one, and
/// counts for one more there; a target without metrics gets them as of a reading of the
/// system clock. No other backend is touched, and without a reading nothing is.
pub proof fn opened_connection_is_counted(
    proxy: L4Proxy,
    registry: HealthRegistry,
    tracker: &mut ConnectionTracker,
    opened: Result<Option<SocketAddr>, ClockError>,
    other: SocketAddr,
)
    requires
        call_ensures(L4Proxy::open, (&proxy, &registry, tracker), opened),
        opened != Ok::<Option<SocketAddr>, ClockError>(Some(other)),
    ensures
        opened matches Ok(choice) ==> is_l4_choice(
            registry@,
            old(tracker)@,
            text::texts(proxy.config.targets@),
            choice,
        ),
        opened is Err ==> clock::shows(Err(ClockError)),
        opened is Err ==> exists|addr: SocketAddr| #[trigger]
            is_l4_choice(
                registry@,
                old(tracker)@,
                text::texts(proxy.config.targets@),
                Some(addr),
            ) && !old(tracker)@.contains_key(addr),
        !(opened is Ok && opened->Ok_0 is Some) ==> final(tracker)@ == old(tracker)@,
        opened matches Ok(Some(addr)) ==> {
            &&& final(tracker)@.contains_key(addr)
            &&& old(tracker)@.contains_key(addr) && old(tracker)@[addr].active_requests
                < usize::MAX ==> final(tracker)@[addr] == (BackendStats {
                active_requests: (old(tracker)@[addr].active_requests + 1) as usize,
                ..old(tracker)@[addr]
            })
            &&& !old(tracker)@.contains_key(addr) ==> final(tracker)@[addr].active_requests == 1
                && final(tracker)@[addr].ewma_latency_bits == 0 && clock::shows(
                Ok(final(tracker)@[addr].last_update_ms))
        },
        final(tracker)@.contains_key(other) == old(tracker)@.contains_key(other),
        old(tracker)@.contains_key(other) ==> final(tracker)@[other] == old(tracker)@[other],
{
}

/// What a new connection at a given time leaves: it counts for one more at the target that
/// it goes to, and nothing else has changed.
pub proof fn opened_connection_is_counted_at_its_time(
    proxy: L4Proxy,
    registry: HealthRegistry,
    tracker: &mut ConnectionTracker,
    now_ms: u64,
    choice: Option<SocketAddr>,
    other: SocketAddr,
)
    requires
        call_ensures(L4Proxy::open_at, (&proxy, &registry, tracker, now_ms), choice),
        choice != Some(other),
    ensures
        is_l4_choice(registry@, old(tracker)@, text::texts(proxy.config.targets@), choice),
        choice is None ==> final(tracker)@ == old(tracker)@,
        choice matches Some(addr) ==> {
            &&& final(tracker)@.contains_key(addr)
            &&& old(tracker)@.contains_key(addr) && old(tracker)@[addr].active_requests
                < usize::MAX ==> final(tracker)@[addr] == (BackendStats {
                active_requests: (old(tracker)@[addr].active_requests + 1) as usize,
                ..old(tracker)@[addr]
            })
            &&& !old(tracker)@.contains_key(addr) ==> final(tracker)@[addr] == (BackendStats {
                active_requests: 1,
                ewma_latency_bits: 0,
                last_update_ms: now_ms,
            })
        },
        final(tracker)@.contains_key(other) == old(tracker)@.contains_key(other),
        old(tracker)@.contains_key(other) ==> final(tracker)@[other] == old(tracker)@[other],
{
}

/// A proxy begins with the configuration that it is given.
pub proof fn proxy_begins_with_its_targets(config: TcpServerConfig, proxy: L4Proxy)
    requires
        call_ensures(L4Proxy::new, (config,), proxy),
    ensures
        proxy.config == config,
{
}

} // verus!
