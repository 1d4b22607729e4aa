//! Routing decisions: least connections, peak latency, and sticky clients.

use crate::addr::{hash_ip, AddrKey, IpAddr, SocketAddr};
use crate::clock::{current_time_ms, ClockError};
use crate::float_bits::{is_less, is_zero_bits, ONE_BITS};
use crate::health::Endpoint;
use crate::ranking::sort_endpoints;
use crate::{addr, clock, float_bits, health, ranking};
use dashmap::DashMap;
use std::collections::hash_map::RandomState;
use vstd::prelude::*;

verus! {

/// The routing metrics of one backend.
#[derive(Clone, Copy, Debug, PartialEq, Eq, Structural)]
pub struct BackendStats {
    /// The number of requests now under way to this backend.
    pub active_requests: usize,
    /// The moving average of its latency in milliseconds, as the bits of a double.
    pub ewma_latency_bits: u64,
    /// When the average was last updated, in milliseconds since the Unix epoch.
    pub last_update_ms: u64,
}

impl BackendStats {
    /// The metrics of a backend first seen at `now_ms`.
    pub open spec fn fresh(now_ms: u64) -> Self {
        BackendStats { active_requests: 0, ewma_latency_bits: 0, last_update_ms: now_ms }
    }

    /// The metrics of a backend first seen at `now_ms`.
    pub fn at(now_ms: u64) -> (r: Self)
        ensures
            r == Self::fresh(now_ms),
    {
        BackendStats { active_requests: 0, ewma_latency_bits: 0, last_update_ms: now_ms }
    }

    /// The metrics of a backend first seen when the clock said `reading`; the clock's
    /// error where it had none to give.
    pub fn from_reading(reading: Result<u64, ClockError>) -> (r: Result<Self, ClockError>)
        ensures
            r == (match reading {
                Ok(now_ms) => Ok::<Self, ClockError>(Self::fresh(now_ms)),
                Err(e) => Err::<Self, ClockError>(e),
            }),
    {
        match reading {
            Ok(now_ms) => Ok(Self::at(now_ms)),
            Err(e) => Err(e),
        }
    }

    /// The metrics of a backend first seen now; an error where the system clock
    /// is set before the Unix epoch.
    pub fn new() -> (r: Result<Self, ClockError>)
        ensures
            r matches Ok(stats) ==> stats == Self::fresh(stats.last_update_ms),
            r matches Ok(stats) ==> clock::shows(Ok(stats.last_update_ms)),
            r matches Err(e) ==> clock::shows(Err(e)),
    {
        Self::from_reading(current_time_ms())
    }

    /// The average latency, as the bits of a double.
    pub fn get_ewma(&self) -> (r: u64)
        ensures
            r == self.ewma_latency_bits,
    {
        self.ewma_latency_bits
    }
}

/// The numbers under which the map holds a backend's metrics: active requests,
/// average latency, time of the last update.
pub type StatsRow = (usize, u64, u64);

/// A concurrent map of an outside crate, from address keys to metrics.
#[verifier::external_type_specification]
#[verifier::external_body]
#[verifier::reject_recursive_types(K)]
#[verifier::reject_recursive_types(V)]
#[verifier::reject_recursive_types(S)]
pub struct ExDashMap<K, V, S>(DashMap<K, V, S>);

/// What a map of metrics holds.
pub uninterp spec fn rows(map: DashMap<AddrKey, StatsRow, RandomState>) -> Map<AddrKey, StatsRow>;

/// `DashMap::new` makes a map that holds nothing.
#[verifier::external_body]
fn new_rows() -> (r: DashMap<AddrKey, StatsRow, RandomState>)
    ensures
        rows(r).is_empty(),
{
    DashMap::new()
}

/// `DashMap::get` finds the value under a key, where the map holds one; the
/// guard that it returns is read and dropped.
#[verifier::external_body]
fn get_row(map: &DashMap<AddrKey, StatsRow, RandomState>, key: &AddrKey) -> (r: Option<StatsRow>)
    ensures
        r == (if rows(*map).contains_key(*key) {
            Some(rows(*map)[*key])
        } else {
            None
        }),
{
    map.get(key).map(|row| *row)
}

/// `DashMap::insert` puts a value under a key, in place of what was there.
#[verifier::external_body]
fn put_row(map: &mut DashMap<AddrKey, StatsRow, RandomState>, key: AddrKey, row: StatsRow)
    ensures
        rows(*final(map)) == rows(*old(map)).insert(key, row),
{
    map.insert(key, row);
}

/// `n` and one more, counted around at the end of the machine's range.
pub open spec fn one_more(n: usize) -> usize {
    if n == usize::MAX {
        0
    } else {
        (n + 1) as usize
    }
}

/// `n` and one less, zero staying zero.
pub open spec fn one_less(n: usize) -> usize {
    if n == 0 {
        0
    } else {
        (n - 1) as usize
    }
}

/// The requests under way to `addr`; none to a backend without metrics.
pub open spec fn load_of(stats: Map<SocketAddr, BackendStats>, addr: SocketAddr) -> usize {
    if stats.contains_key(addr) {
        stats[addr].active_requests
    } else {
        0
    }
}

/// The metrics after a request to `addr` has begun at `now_ms`.
pub open spec fn begun(
    stats: Map<SocketAddr, BackendStats>,
    addr: SocketAddr,
    now_ms: u64,
) -> Map<SocketAddr, BackendStats> {
    let before = if stats.contains_key(addr) {
        stats[addr]
    } else {
        BackendStats::fresh(now_ms)
    };
    stats.insert(
        addr,
        BackendStats { active_requests: one_more(before.active_requests), ..before },
    )
}

/// The metrics after a request to `addr` has ended, its latency not taken.
pub open spec fn ended(
    stats: Map<SocketAddr, BackendStats>,
    addr: SocketAddr,
) -> Map<SocketAddr, BackendStats> {
    if stats.contains_key(addr) {
        stats.insert(
            addr,
            BackendStats {
                active_requests: one_less(stats[addr].active_requests),
                ..stats[addr]
            },
        )
    } else {
        stats
    }
}

/// The new latency replaces the average at once: there is no average yet, or the
/// new latency is a peak above it.
pub open spec fn is_peak(average: u64, rtt: u64) -> bool {
    float_bits::is_zero(average) || float_bits::less(average, rtt)
}

/// The time between two timestamps, zero where the clock was set back.
pub open spec fn gap_ms(now_ms: u64, last_ms: u64) -> u64 {
    if now_ms >= last_ms {
        (now_ms - last_ms) as u64
    } else {
        0
    }
}

/// The metrics after a request to `addr` has ended at `now_ms`, where the average
/// latency has become `average`.
pub open spec fn ended_with_latency(
    stats: Map<SocketAddr, BackendStats>,
    addr: SocketAddr,
    now_ms: u64,
    average: u64,
) -> Map<SocketAddr, BackendStats> {
    stats.insert(
        addr,
        BackendStats {
            active_requests: one_less(stats[addr].active_requests),
            ewma_latency_bits: average,
            last_update_ms: now_ms,
        },
    )
}

/// `average` is what becomes of the average latency in `before` when a request
/// that took `rtt` ends at `now_ms`: a peak replaces it, and anything else is
/// averaged in by `decay`, which is handed the average, the latency and the time
/// since the last update.
pub open spec fn is_new_average<F: Fn(u64, u64, u64) -> u64>(
    before: BackendStats,
    rtt: u64,
    now_ms: u64,
    decay: F,
    average: u64,
) -> bool {
    if is_peak(before.ewma_latency_bits, rtt) {
        average == rtt
    } else {
        decay.ensures(
            (before.ewma_latency_bits, rtt, gap_ms(now_ms, before.last_update_ms)),
            average,
        )
    }
}

/// The latency that a cost is computed from: one millisecond for a backend
/// without an average.
pub open spec fn base_latency(average: u64) -> u64 {
    if float_bits::is_zero(average) {
        ONE_BITS
    } else {
        average
    }
}

/// `costs` are the costs of `addrs`, one for one: zero for a backend without
/// metrics, and otherwise what `cost` gives for its active requests and its base
/// latency.
pub open spec fn are_costs<F: Fn(usize, u64) -> u64>(
    stats: Map<SocketAddr, BackendStats>,
    addrs: Seq<SocketAddr>,
    cost: F,
    costs: Seq<u64>,
) -> bool {
    &&& costs.len() == addrs.len()
    &&& forall|i: int|
        0 <= i < addrs.len() ==> is_cost(stats, addrs[i], cost, #[trigger] costs[i])
}

/// `value` is the cost of `addr`.
pub open spec fn is_cost<F: Fn(usize, u64) -> u64>(
    stats: Map<SocketAddr, BackendStats>,
    addr: SocketAddr,
    cost: F,
    value: u64,
) -> bool {
    if stats.contains_key(addr) {
        cost.ensures(
            (stats[addr].active_requests, base_latency(stats[addr].ewma_latency_bits)),
            value,
        )
    } else {
        value == 0
    }
}

/// Where the choice among `costs` falls: a later cost is taken over the choice
/// so far only if it is a smaller number.
pub open spec fn cheapest(costs: Seq<u64>) -> int
    decreases costs.len(),
{
    if costs.len() <= 1 {
        0
    } else {
        let so_far = cheapest(costs.drop_last());
        if float_bits::less(costs.last(), costs[so_far]) {
            costs.len() - 1
        } else {
            so_far
        }
    }
}

/// `i` is the first place where `counts` has its minimum.
pub open spec fn is_first_least(counts: Seq<usize>, i: int) -> bool {
    &&& 0 <= i < counts.len()
    &&& forall|j: int| 0 <= j < counts.len() ==> counts[i] <= #[trigger] counts[j]
    &&& forall|j: int| 0 <= j < i ==> counts[i] < #[trigger] counts[j]
}

/// The loads of `addrs`, one for one.
pub open spec fn loads(
    stats: Map<SocketAddr, BackendStats>,
    addrs: Seq<SocketAddr>,
) -> Seq<usize> {
    Seq::new(addrs.len(), |i: int| load_of(stats, addrs[i]))
}

/// The backend that the client `ip` is pinned to among a list of backends with their
/// texts: the hash of the client, taken modulo the number of backends, counts into the
/// alphabetical list of them.
pub open spec fn pinned(ip: IpAddr, list: Seq<(SocketAddr, Seq<char>)>) -> Option<SocketAddr> {
    if list.len() == 0 {
        None
    } else {
        Some(ranking::ranked(list)[(addr::ip_hash(ip) as usize) as int % list.len() as int].0)
    }
}

/// Finds the choice among the costs of a list of backends.
pub fn cheapest_index(costs: &Vec<u64>) -> (r: usize)
    requires
        costs@.len() > 0,
    ensures
        r == cheapest(costs@),
        r < costs@.len(),
{
    let mut best: usize = 0;
    let mut i: usize = 1;
    proof {
        assert(costs@.take(1).len() == 1);
    }
    while i < costs.len()
        invariant
            1 <= i <= costs@.len(),
            best < i,
            best == cheapest(costs@.take(i as int)),
        decreases costs@.len() - i,
    {
        proof {
            assert(costs@.take(i + 1).drop_last() =~= costs@.take(i as int));
        }
        if is_less(costs[i], costs[best]) {
            best = i;
        }
        i = i + 1;
    }
    proof {
        assert(costs@.take(i as int) =~= costs@);
    }
    best
}

/// The load and latency metrics of the backends, by address.
pub struct ConnectionTracker {
    stats: DashMap<AddrKey, StatsRow, RandomState>,
}

impl View for ConnectionTracker {
    type V = Map<SocketAddr, BackendStats>;

    closed spec fn view(&self) -> Map<SocketAddr, BackendStats> {
        Map::new(
            |addr: SocketAddr| rows(self.stats).contains_key(addr.key_of()),
            |addr: SocketAddr| from_row(rows(self.stats)[addr.key_of()]),
        )
    }
}

impl Default for ConnectionTracker {
    fn default() -> (r: Self)
        ensures
            r@ == Map::<SocketAddr, BackendStats>::empty(),
    {
        ConnectionTracker::new()
    }
}

spec fn from_row(row: StatsRow) -> BackendStats {
    BackendStats { active_requests: row.0, ewma_latency_bits: row.1, last_update_ms: row.2 }
}

impl ConnectionTracker {
    /// A tracker without metrics.
    pub fn new() -> (r: Self)
        ensures
            r@ == Map::<SocketAddr, BackendStats>::empty(),
    {
        let r = ConnectionTracker { stats: new_rows() };
        assert(r@ =~= Map::<SocketAddr, BackendStats>::empty());
        r
    }

    /// The metrics of `addr`, where there are any.
    pub fn stats_of(&self, addr: SocketAddr) -> (r: Option<BackendStats>)
        ensures
            r == (if self@.contains_key(addr) {
                Some(self@[addr])
            } else {
                None
            }),
    {
        match get_row(&self.stats, &addr.key()) {
            Some(row) => Some(
                BackendStats {
                    active_requests: row.0,
                    ewma_latency_bits: row.1,
                    last_update_ms: row.2,
                },
            ),
            None => None,
        }
    }

    fn set_stats(&mut self, addr: SocketAddr, stats: BackendStats)
        ensures
            final(self)@ == old(self)@.insert(addr, stats),
    {
        put_row(
            &mut self.stats,
            addr.key(),
            (stats.active_requests, stats.ewma_latency_bits, stats.last_update_ms),
        );
        assert(self@ =~= old(self)@.insert(addr, stats));
    }

    /// Counts a request to `addr` that begins at `now_ms`.
    pub fn inc_at(&mut self, addr: SocketAddr, now_ms: u64)
        ensures
            final(self)@ == begun(old(self)@, addr, now_ms),
    {
        let before = match self.stats_of(addr) {
            Some(stats) => stats,
            None => BackendStats::at(now_ms),
        };
        let active_requests: usize = if before.active_requests == usize::MAX {
            0
        } else {
            before.active_requests + 1
        };
        self.set_stats(addr, BackendStats { active_requests, ..before });
    }

    /// Counts a request to `addr` that begins now. The clock is read only for a
    /// backend without metrics; where it is set before the Unix epoch nothing is
    /// counted.
    pub fn inc(&mut self, addr: SocketAddr) -> (r: Result<(), ClockError>)
        ensures
            r is Ok ==> exists|now_ms: u64| final(self)@ == #[trigger] begun(
                old(self)@,
                addr,
                now_ms,
            ),
            r is Err ==> final(self)@ == old(self)@,
            old(self)@.contains_key(addr) ==> r is Ok,
            r is Ok && !old(self)@.contains_key(addr) ==> exists|now_ms: u64|
                final(self)@ == #[trigger] begun(old(self)@, addr, now_ms) && clock::shows(
                    Ok(now_ms),
                ),
            r matches Err(e) ==> clock::shows(Err(e)),
    {
        let now_ms: u64 = match self.stats_of(addr) {
            Some(stats) => stats.last_update_ms,
            None => match BackendStats::new() {
                Ok(stats) => stats.last_update_ms,
                Err(e) => {
                    return Err(e);
                },
            },
        };
        self.inc_at(addr, now_ms);
        Ok(())
    }

    /// Counts the end of a request to `addr` without taking its latency.
    pub fn dec(&mut self, addr: SocketAddr)
        ensures
            final(self)@ == ended(old(self)@, addr),
    {
        if let Some(before) = self.stats_of(addr) {
            if before.active_requests > 0 {
                self.set_stats(
                    addr,
                    BackendStats { active_requests: before.active_requests - 1, ..before },
                );
            } else {
                assert(self@ =~= ended(self@, addr));
            }
        }
    }

    /// Counts the end at `now_ms` of a request to `addr` that took `rtt`
    /// milliseconds, the bits of a double, and updates the average latency:
    /// a peak replaces it, and `decay` averages anything else in.
    pub fn dec_and_update_ewma_at<F: Fn(u64, u64, u64) -> u64>(
        &mut self,
        addr: SocketAddr,
        rtt: u64,
        now_ms: u64,
        decay: F,
    )
        requires
            forall|average: u64, latency: u64, gap: u64|
                decay.requires((average, latency, gap)),
        ensures
            !old(self)@.contains_key(addr) ==> final(self)@ == old(self)@,
            old(self)@.contains_key(addr) ==> exists|average: u64|
                is_new_average(old(self)@[addr], rtt, now_ms, decay, average) && final(self)@
                    == #[trigger] ended_with_latency(old(self)@, addr, now_ms, average),
    {
        if let Some(before) = self.stats_of(addr) {
            let active_requests: usize = if before.active_requests > 0 {
                before.active_requests - 1
            } else {
                0
            };
            let gap: u64 = if now_ms >= before.last_update_ms {
                now_ms - before.last_update_ms
            } else {
                0
            };
            let average: u64 = if is_zero_bits(before.ewma_latency_bits) || is_less(
                before.ewma_latency_bits,
                rtt,
            ) {
                rtt
            } else {
                decay(before.ewma_latency_bits, rtt, gap)
            };
            self.set_stats(
                addr,
                BackendStats { active_requests, ewma_latency_bits: average, last_update_ms: now_ms },
            );
            proof {
                assert(is_new_average(old(self)@[addr], rtt, now_ms, decay, average));
                assert(self@ == ended_with_latency(old(self)@, addr, now_ms, average));
            }
        }
    }

    /// Counts the end now of a request to `addr` that took `rtt` milliseconds,
    /// as `dec_and_update_ewma_at` does. The clock is read only for a backend with
    /// metrics; where it is set before the Unix epoch nothing is counted.
    pub fn dec_and_update_ewma<F: Fn(u64, u64, u64) -> u64>(
        &mut self,
        addr: SocketAddr,
        rtt: u64,
        decay: F,
    ) -> (r: Result<(), ClockError>)
        requires
            forall|average: u64, latency: u64, gap: u64|
                decay.requires((average, latency, gap)),
        ensures
            !old(self)@.contains_key(addr) ==> r is Ok && final(self)@ == old(self)@,
            r is Err ==> final(self)@ == old(self)@,
            r is Ok && old(self)@.contains_key(addr) ==> exists|now_ms: u64, average: u64|
                is_new_average(old(self)@[addr], rtt, now_ms, decay, average) && final(self)@
                    == #[trigger] ended_with_latency(old(self)@, addr, now_ms, average)
                    && clock::shows(Ok(now_ms)),
            r is Ok && old(self)@.contains_key(addr) ==> final(self)@.contains_key(addr)
                && clock::shows(Ok(final(self)@[addr].last_update_ms)),
            r matches Err(e) ==> clock::shows(Err(e)),
    {
        if self.stats_of(addr).is_none() {
            return Ok(());
        }
        match current_time_ms() {
            Ok(now_ms) => {
                self.dec_and_update_ewma_at(addr, rtt, now_ms, decay);
                Ok(())
            },
            Err(e) => Err(e),
        }
    }

    /// The backend that a client is pinned to: the hash of its address, taken
    /// modulo the number of backends, counts into the alphabetical list of them.
    pub fn get_sticky_backend(
        &self,
        client_ip: IpAddr,
        healthy_backends: &[Endpoint],
    ) -> (r: Option<SocketAddr>)
        ensures
            r == pinned(client_ip, health::endpoint_views(healthy_backends@)),
    {
        if healthy_backends.len() == 0 {
            return None;
        }
        let sorted = sort_endpoints(healthy_backends);
        let index: usize = (hash_ip(client_ip) as usize) % sorted.len();
        proof {
            assert(health::endpoint_views(sorted@)[index as int].0 == sorted@[index as int].addr);
        }
        Some(sorted[index].addr)
    }

    /// The first of the backends with the fewest requests under way.
    pub fn get_best_l4(&self, healthy_backends: &[SocketAddr]) -> (r: Option<SocketAddr>)
        ensures
            healthy_backends@.len() == 0 ==> r is None,
            healthy_backends@.len() > 0 ==> exists|i: int|
                #[trigger] is_first_least(loads(self@, healthy_backends@), i) && r == Some(
                    healthy_backends@[i],
                ),
    {
        if healthy_backends.len() == 0 {
            return None;
        }
        let ghost counts = loads(self@, healthy_backends@);
        let mut best: usize = 0;
        let mut best_load: usize = self.load(healthy_backends[0]);
        let mut i: usize = 1;
        while i < healthy_backends.len()
            invariant
                counts == loads(self@, healthy_backends@),
                best < i <= healthy_backends@.len(),
                best_load == counts[best as int],
                forall|j: int| 0 <= j < i ==> best_load <= #[trigger] counts[j],
                forall|j: int| 0 <= j < best ==> best_load < #[trigger] counts[j],
            decreases healthy_backends@.len() - i,
        {
            let load: usize = self.load(healthy_backends[i]);
            assert(load == counts[i as int]);
            if load < best_load {
                best = i;
                best_load = load;
            }
            i = i + 1;
        }
        assert(is_first_least(counts, best as int));
        Some(healthy_backends[best])
    }

    /// The requests under way to `addr`.
    pub fn load(&self, addr: SocketAddr) -> (r: usize)
        ensures
            r == load_of(self@, addr),
    {
        match self.stats_of(addr) {
            Some(stats) => stats.active_requests,
            None => 0,
        }
    }

    /// The backend with the lowest cost, the first of them where several are
    /// equal; `cost` gives a backend's cost, as the bits of a double, from its
    /// active requests and its base latency.
    pub fn get_best_l7<F: Fn(usize, u64) -> u64>(
        &self,
        healthy_backends: &[SocketAddr],
        cost: F,
    ) -> (r: Option<SocketAddr>)
        requires
            forall|active: usize, latency: u64| cost.requires((active, latency)),
        ensures
            healthy_backends@.len() == 0 ==> r is None,
            healthy_backends@.len() > 0 ==> exists|costs: Seq<u64>|
                #[trigger] are_costs(self@, healthy_backends@, cost, costs) && r == Some(
                    healthy_backends@[cheapest(costs)],
                ),
    {
        if healthy_backends.len() == 0 {
            return None;
        }
        let mut costs: Vec<u64> = Vec::new();
        let mut i: usize = 0;
        while i < healthy_backends.len()
            invariant
                i <= healthy_backends@.len(),
                costs@.len() == i,
                forall|active: usize, latency: u64| cost.requires((active, latency)),
                forall|j: int|
                    0 <= j < i ==> is_cost(
                        self@,
                        healthy_backends@[j],
                        cost,
                        #[trigger] costs@[j],
                    ),
            decreases healthy_backends@.len() - i,
        {
            let value = self.calculate_l7_cost(healthy_backends[i], &cost);
            costs.push(value);
            i = i + 1;
        }
        assert(are_costs(self@, healthy_backends@, cost, costs@));
        Some(healthy_backends[cheapest_index(&costs)])
    }

    /// The cost of a backend: zero without metrics, so that a new backend is
    /// tried first.
    pub fn calculate_l7_cost<F: Fn(usize, u64) -> u64>(&self, addr: SocketAddr, cost: &F) -> (r:
        u64)
        requires
            forall|active: usize, latency: u64| cost.requires((active, latency)),
        ensures
            is_cost(self@, addr, *cost, r),
    {
        match self.stats_of(addr) {
            Some(stats) => {
                let average = stats.get_ewma();
                let latency: u64 = if is_zero_bits(average) {
                    ONE_BITS
                } else {
                    average
                };
                cost(stats.active_requests, latency)
            },
            None => 0,
        }
    }
}

/// A request that begins and ends leaves every backend with the load it had.
pub proof fn request_leaves_no_load(
    stats: Map<SocketAddr, BackendStats>,
    target: SocketAddr,
    now_ms: u64,
    any: SocketAddr,
)
    requires
        load_of(stats, target) < usize::MAX,
    ensures
        load_of(ended(begun(stats, target, now_ms), target), any) == load_of(stats, any),
        stats.contains_key(target) ==> ended(begun(stats, target, now_ms), target) == stats,
{
    if stats.contains_key(target) {
        assert(ended(begun(stats, target, now_ms), target) =~= stats);
    }
}

/// An event in the life of connections whose latency is not taken.
pub enum LoadEvent {
    /// A connection to a backend begins, at a time.
    Begin(SocketAddr, u64),
    /// A connection to a backend ends.
    End(SocketAddr),
}

/// The metrics after `events`.
pub open spec fn replayed(
    stats: Map<SocketAddr, BackendStats>,
    events: Seq<LoadEvent>,
) -> Map<SocketAddr, BackendStats>
    decreases events.len(),
{
    if events.len() == 0 {
        stats
    } else {
        let before = replayed(stats, events.drop_last());
        match events.last() {
            LoadEvent::Begin(addr, now_ms) => begun(before, addr, now_ms),
            LoadEvent::End(addr) => ended(before, addr),
        }
    }
}

/// How many more connections to `addr` begin than end.
pub open spec fn balance(events: Seq<LoadEvent>, addr: SocketAddr) -> int
    decreases events.len(),
{
    if events.len() == 0 {
        0
    } else {
        balance(events.drop_last(), addr) + match events.last() {
            LoadEvent::Begin(target, _) => if target == addr {
                1int
            } else {
                0int
            },
            LoadEvent::End(target) => if target == addr {
                -1int
            } else {
                0int
            },
        }
    }
}

/// However connections overlap, the load of a backend is what it was before, and the
/// connections that began, without those that ended; and its average latency stays.
pub proof fn load_is_the_balance(
    stats: Map<SocketAddr, BackendStats>,
    events: Seq<LoadEvent>,
    addr: SocketAddr,
)
    requires
        forall|n: int|
            0 <= n <= events.len() ==> 0 <= load_of(stats, addr) + #[trigger] balance(
                events.take(n),
                addr,
            ) <= usize::MAX,
    ensures
        load_of(replayed(stats, events), addr) == load_of(stats, addr) + balance(events, addr),
        stats.contains_key(addr) ==> {
            &&& replayed(stats, events).contains_key(addr)
            &&& replayed(stats, events)[addr].ewma_latency_bits == stats[addr].ewma_latency_bits
            &&& replayed(stats, events)[addr].last_update_ms == stats[addr].last_update_ms
        },
        !stats.contains_key(addr) && replayed(stats, events).contains_key(addr) ==> replayed(
            stats,
            events,
        )[addr].ewma_latency_bits == 0,
    decreases events.len(),
{
    if events.len() > 0 {
        let init = events.drop_last();
        assert forall|n: int| 0 <= n <= init.len() implies 0 <= load_of(stats, addr)
            + #[trigger] balance(init.take(n), addr) <= usize::MAX by {
            assert(init.take(n) =~= events.take(n));
        }
        load_is_the_balance(stats, init, addr);
        assert(events.take(events.len() as int) =~= events);
        assert(events.take(events.len() - 1) =~= init);
        assert(0 <= load_of(stats, addr) + balance(events.take(events.len() as int), addr)
            <= usize::MAX);
        assert(0 <= load_of(stats, addr) + balance(events.take(events.len() - 1), addr)
            <= usize::MAX);
    }
}

/// Once every connection that began has ended, every backend has the load and the
/// average latency that it had, however the connections overlapped.
pub proof fn ended_connections_leave_no_load(
    stats: Map<SocketAddr, BackendStats>,
    events: Seq<LoadEvent>,
    addr: SocketAddr,
)
    requires
        forall|n: int|
            0 <= n <= events.len() ==> 0 <= #[trigger] balance(events.take(n), addr)
                <= usize::MAX - load_of(stats, addr),
        balance(events, addr) == 0,
    ensures
        load_of(replayed(stats, events), addr) == load_of(stats, addr),
        stats.contains_key(addr) ==> replayed(stats, events).contains_key(addr) && replayed(
            stats,
            events,
        )[addr] == stats[addr],
{
    load_is_the_balance(stats, events, addr);
}

/// A request changes the metrics of its own backend only.
pub proof fn request_touches_its_backend_only(
    stats: Map<SocketAddr, BackendStats>,
    target: SocketAddr,
    now_ms: u64,
    average: u64,
    other: SocketAddr,
)
    requires
        other != target,
    ensures
        begun(stats, target, now_ms).contains_key(other) == stats.contains_key(other),
        ended(stats, target).contains_key(other) == stats.contains_key(other),
        ended_with_latency(stats, target, now_ms, average).contains_key(other)
            == stats.contains_key(other),
        stats.contains_key(other) ==> {
            &&& begun(stats, target, now_ms)[other] == stats[other]
            &&& ended(stats, target)[other] == stats[other]
            &&& ended_with_latency(stats, target, now_ms, average)[other] == stats[other]
        },
{
}

/// A latency spike becomes the average at once: the average rises to it.
pub proof fn spike_becomes_the_average<F: Fn(u64, u64, u64) -> u64>(
    before: BackendStats,
    rtt: u64,
    now_ms: u64,
    decay: F,
    average: u64,
)
    requires
        float_bits::less(before.ewma_latency_bits, rtt),
        is_new_average(before, rtt, now_ms, decay, average),
    ensures
        average == rtt,
        float_bits::less(before.ewma_latency_bits, average),
{
}

/// The backend that a client is pinned to does not depend on the order in which
/// the backends are listed.
pub proof fn pinned_ignores_order(
    ip: IpAddr,
    a: Seq<(SocketAddr, Seq<char>)>,
    b: Seq<(SocketAddr, Seq<char>)>,
)
    requires
        a.to_multiset() == b.to_multiset(),
    ensures
        pinned(ip, a) == pinned(ip, b),
{
    ranking::text_order_is_total();
    a.lemma_sort_by_ensures(ranking::text_order());
    ranking::ranked_is_unique(b, ranking::ranked(a));
    vstd::seq_lib::to_multiset_len(a);
    vstd::seq_lib::to_multiset_len(b);
}

/// A client is pinned to one of the backends, whenever there is one.
pub proof fn pinned_is_a_backend(ip: IpAddr, list: Seq<(SocketAddr, Seq<char>)>)
    ensures
        pinned(ip, list) is Some <==> list.len() > 0,
        pinned(ip, list) matches Some(chosen) ==> exists|i: int|
            0 <= i < list.len() && (#[trigger] list[i]).0 == chosen,
{
    if list.len() > 0 {
        ranking::text_order_is_total();
        list.lemma_sort_by_ensures(ranking::text_order());
        let sorted = ranking::ranked(list);
        ranking::ranked_is_unique(list, sorted);
        let i = (addr::ip_hash(ip) as usize) as int % list.len() as int;
        assert(0 <= i < list.len()) by (nonlinear_arith)
            requires
                i == (addr::ip_hash(ip) as usize) as int % list.len() as int,
                list.len() > 0,
        ;
        let chosen = sorted[i];
        assert(sorted.contains(chosen));
        vstd::seq_lib::to_multiset_contains(sorted, chosen);
        vstd::seq_lib::to_multiset_contains(list, chosen);
        let k = choose|k: int| 0 <= k < list.len() && list[k] == chosen;
        assert(list[k].0 == chosen.0);
    }
}

/// There is only one first place of the minimum.
pub proof fn first_least_is_unique(counts: Seq<usize>, i: int, j: int)
    requires
        is_first_least(counts, i),
        is_first_least(counts, j),
    ensures
        i == j,
{
    assert(counts[i] <= counts[j]);
    assert(counts[j] <= counts[i]);
}

/// Among costs that are numbers, the choice is the first of the lowest.
pub proof fn cheapest_is_the_first_minimum(costs: Seq<u64>)
    requires
        costs.len() > 0,
        forall|i: int| 0 <= i < costs.len() ==> float_bits::is_number(#[trigger] costs[i]),
    ensures
        0 <= cheapest(costs) < costs.len(),
        forall|j: int|
            0 <= j < costs.len() ==> !float_bits::less(#[trigger] costs[j], costs[cheapest(costs)]),
        forall|j: int|
            0 <= j < cheapest(costs) ==> float_bits::less(
                costs[cheapest(costs)],
                #[trigger] costs[j],
            ),
    decreases costs.len(),
{
    if costs.len() > 1 {
        let init = costs.drop_last();
        assert forall|i: int| 0 <= i < init.len() implies float_bits::is_number(
            #[trigger] init[i],
        ) by {
            assert(init[i] == costs[i]);
        }
        cheapest_is_the_first_minimum(init);
        let so_far = cheapest(init);
        assert(costs[so_far] == init[so_far]);
        assert forall|j: int| 0 <= j < costs.len() implies !float_bits::less(
            #[trigger] costs[j],
            costs[cheapest(costs)],
        ) by {
            if j < init.len() {
                assert(!float_bits::less(init[j], init[so_far]));
            }
        }
        assert forall|j: int| 0 <= j < cheapest(costs) implies float_bits::less(
            costs[cheapest(costs)],
            #[trigger] costs[j],
        ) by {
            if j < so_far {
                assert(float_bits::less(init[so_far], init[j]));
            } else {
                assert(!float_bits::less(init[j], init[so_far]));
            }
        }
    }
}

/// A backend is bypassed as long as another one costs less.
pub proof fn costlier_backend_is_bypassed(costs: Seq<u64>, costlier: int, other: int)
    requires
        forall|i: int| 0 <= i < costs.len() ==> float_bits::is_number(#[trigger] costs[i]),
        0 <= costlier < costs.len(),
        0 <= other < costs.len(),
        float_bits::less(costs[other], costs[costlier]),
    ensures
        cheapest(costs) != costlier,
{
    cheapest_is_the_first_minimum(costs);
}

/// The choice among any costs falls on one of them.
pub proof fn cheapest_is_a_place(costs: Seq<u64>)
    requires
        costs.len() > 0,
    ensures
        0 <= cheapest(costs) < costs.len(),
    decreases costs.len(),
{
    if costs.len() > 1 {
        cheapest_is_a_place(costs.drop_last());
    }
}

/// While the costs of the backends with metrics are positive numbers, a backend
/// without metrics is chosen before all of them.
pub proof fn new_backends_come_first<F: Fn(usize, u64) -> u64>(
    stats: Map<SocketAddr, BackendStats>,
    addrs: Seq<SocketAddr>,
    cost: F,
    costs: Seq<u64>,
    fresh: int,
)
    requires
        are_costs(stats, addrs, cost, costs),
        0 <= fresh < addrs.len(),
        !stats.contains_key(addrs[fresh]),
        forall|i: int|
            #![trigger costs[i]]
            0 <= i < addrs.len() && stats.contains_key(addrs[i]) ==> float_bits::less(0, costs[i]),
    ensures
        0 <= cheapest(costs) < addrs.len(),
        !stats.contains_key(addrs[cheapest(costs)]),
{
    assert forall|i: int| 0 <= i < costs.len() implies float_bits::is_number(
        #[trigger] costs[i],
    ) by {
        assert(is_cost(stats, addrs[i], cost, costs[i]));
    }
    cheapest_is_the_first_minimum(costs);
    assert(is_cost(stats, addrs[fresh], cost, costs[fresh]));
    assert(!float_bits::less(costs[fresh], costs[cheapest(costs)]));
}

/// A request that begins adds one to the requests under way to its backend and leaves its
/// latency as it is; a backend that has no metrics gets them, without an average and as of
/// that time.
pub proof fn beginning_is_counted(
    stats: Map<SocketAddr, BackendStats>,
    target: SocketAddr,
    now_ms: u64,
)
    ensures
        begun(stats, target, now_ms).dom() == stats.dom().insert(target),
        stats.contains_key(target) && stats[target].active_requests < usize::MAX ==> {
            &&& begun(stats, target, now_ms)[target].active_requests
                == stats[target].active_requests + 1
            &&& begun(stats, target, now_ms)[target].ewma_latency_bits
                == stats[target].ewma_latency_bits
            &&& begun(stats, target, now_ms)[target].last_update_ms == stats[target].last_update_ms
        },
        !stats.contains_key(target) ==> {
            &&& begun(stats, target, now_ms)[target].active_requests == 1
            &&& begun(stats, target, now_ms)[target].ewma_latency_bits == 0
            &&& begun(stats, target, now_ms)[target].last_update_ms == now_ms
        },
{
    assert(begun(stats, target, now_ms).dom() =~= stats.dom().insert(target));
}

/// A request that ends takes one from the requests under way to its backend, down to
/// none, and makes no backend known. Without its latency, the average stays; with it, the
/// average and the time of the update are the new ones.
pub proof fn end_is_counted(
    stats: Map<SocketAddr, BackendStats>,
    target: SocketAddr,
    now_ms: u64,
    average: u64,
)
    ensures
        ended(stats, target).dom() == stats.dom(),
        stats.contains_key(target) ==> {
            &&& ended_with_latency(stats, target, now_ms, average).dom() == stats.dom()
            &&& ended(stats, target)[target].active_requests == if stats[target].active_requests
                > 0 {
                stats[target].active_requests - 1
            } else {
                0
            }
            &&& ended(stats, target)[target].ewma_latency_bits == stats[target].ewma_latency_bits
            &&& ended(stats, target)[target].last_update_ms == stats[target].last_update_ms
            &&& ended_with_latency(stats, target, now_ms, average)[target].active_requests
                == ended(stats, target)[target].active_requests
            &&& ended_with_latency(stats, target, now_ms, average)[target].ewma_latency_bits
                == average
            &&& ended_with_latency(stats, target, now_ms, average)[target].last_update_ms == now_ms
        },
{
    assert(ended(stats, target).dom() =~= stats.dom());
    if stats.contains_key(target) {
        assert(ended_with_latency(stats, target, now_ms, average).dom() =~= stats.dom());
    }
}

/// A latency that is no peak is averaged in over the time that has passed: `decay` is
/// handed the average, the latency, and the milliseconds from the last update to this
/// one, none if the clock was set back. A first latency, and a peak, is the average.
pub proof fn latency_is_averaged_over_the_time_that_passed<F: Fn(u64, u64, u64) -> u64>(
    before: BackendStats,
    rtt: u64,
    now_ms: u64,
    decay: F,
    average: u64,
)
    requires
        is_new_average(before, rtt, now_ms, decay, average),
    ensures
        before.ewma_latency_bits == 0 || before.ewma_latency_bits == 0x8000_0000_0000_0000
            ==> average == rtt,
        float_bits::less(before.ewma_latency_bits, rtt) ==> average == rtt,
        before.ewma_latency_bits != 0 && before.ewma_latency_bits != 0x8000_0000_0000_0000
            && !float_bits::less(before.ewma_latency_bits, rtt) ==> {
            &&& now_ms >= before.last_update_ms ==> decay.ensures(
                (before.ewma_latency_bits, rtt, (now_ms - before.last_update_ms) as u64),
                average,
            )
            &&& now_ms < before.last_update_ms ==> decay.ensures(
                (before.ewma_latency_bits, rtt, 0u64),
                average,
            )
        },
{
}

/// The average cools down: with a `decay` that lowers an average towards a lower latency
/// whenever time has passed, a request that was faster than the average and ends later
/// than the last update leaves a lower average.
pub proof fn average_cools_down<F: Fn(u64, u64, u64) -> u64>(
    before: BackendStats,
    rtt: u64,
    now_ms: u64,
    decay: F,
    average: u64,
)
    requires
        is_new_average(before, rtt, now_ms, decay, average),
        float_bits::less(rtt, before.ewma_latency_bits),
        before.ewma_latency_bits != 0 && before.ewma_latency_bits != 0x8000_0000_0000_0000,
        before.last_update_ms < now_ms,
        forall|old_average: u64, latency: u64, gap: u64, new_average: u64| #[trigger]
            decay.ensures((old_average, latency, gap), new_average) && gap > 0
                && float_bits::less(latency, old_average) ==> float_bits::less(
                new_average,
                old_average,
            ),
    ensures
        float_bits::less(average, before.ewma_latency_bits),
{
}

/// The cost of a backend is what the caller's function gives for its requests under way
/// and its average latency; without an average, for one millisecond; and a backend
/// without metrics costs nothing.
pub proof fn cost_is_that_of_load_and_latency<F: Fn(usize, u64) -> u64>(
    tracker: ConnectionTracker,
    addr: SocketAddr,
    cost: F,
    value: u64,
)
    requires
        call_ensures(ConnectionTracker::calculate_l7_cost::<F>, (&tracker, addr, &cost), value),
    ensures
        !tracker@.contains_key(addr) ==> value == 0,
        tracker@.contains_key(addr) ==> {
            let stats = tracker@[addr];
            if stats.ewma_latency_bits == 0 || stats.ewma_latency_bits == 0x8000_0000_0000_0000 {
                cost.ensures((stats.active_requests, 0x3ff0_0000_0000_0000u64), value)
            } else {
                cost.ensures((stats.active_requests, stats.ewma_latency_bits), value)
            }
        },
{
}

/// Of two backends with equally many requests under way, the one with the higher average
/// latency is not chosen, whatever other backends there are: this holds for every cost
/// function that gives numbers and grows with the latency.
pub proof fn slower_backend_is_not_chosen<F: Fn(usize, u64) -> u64>(
    tracker: ConnectionTracker,
    backends: &[SocketAddr],
    cost: F,
    choice: Option<SocketAddr>,
    fast: SocketAddr,
    slow: SocketAddr,
)
    requires
        call_ensures(ConnectionTracker::get_best_l7::<F>, (&tracker, backends, cost), choice),
        backends@.contains(fast),
        tracker@.contains_key(fast),
        tracker@.contains_key(slow),
        tracker@[fast].active_requests == tracker@[slow].active_requests,
        tracker@[fast].ewma_latency_bits != 0,
        tracker@[fast].ewma_latency_bits != 0x8000_0000_0000_0000,
        tracker@[slow].ewma_latency_bits != 0,
        tracker@[slow].ewma_latency_bits != 0x8000_0000_0000_0000,
        float_bits::less(tracker@[fast].ewma_latency_bits, tracker@[slow].ewma_latency_bits),
        forall|active: usize, latency: u64, value: u64| #[trigger]
            cost.ensures((active, latency), value) ==> float_bits::is_number(value),
        forall|active: usize, low: u64, high: u64, x: u64, y: u64| #[trigger]
            cost.ensures((active, low), x) && #[trigger] cost.ensures((active, high), y)
                && float_bits::less(low, high) ==> float_bits::less(x, y),
    ensures
        choice is Some,
        choice != Some(slow),
{
    let addrs = backends@;
    let f = choose|f: int| 0 <= f < addrs.len() && addrs[f] == fast;
    let costs = choose|costs: Seq<u64>| #[trigger]
        are_costs(tracker@, addrs, cost, costs) && choice == Some(addrs[cheapest(costs)]);
    assert forall|i: int| 0 <= i < costs.len() implies float_bits::is_number(
        #[trigger] costs[i],
    ) by {
        assert(is_cost(tracker@, addrs[i], cost, costs[i]));
    }
    cheapest_is_the_first_minimum(costs);
    let c = cheapest(costs);
    assert(is_cost(tracker@, addrs[f], cost, costs[f]));
    assert(is_cost(tracker@, addrs[c], cost, costs[c]));
    if addrs[c] == slow {
        assert(cost.ensures(
            (tracker@[fast].active_requests, tracker@[fast].ewma_latency_bits),
            costs[f],
        ));
        assert(cost.ensures(
            (tracker@[slow].active_requests, tracker@[slow].ewma_latency_bits),
            costs[c],
        ));
        assert(float_bits::less(costs[f], costs[c]));
    }
}

/// Of two backends with the same average latency, the one with more requests under way is
/// not chosen, whatever other backends there are: this holds for every cost function that
/// gives numbers and grows with the requests.
pub proof fn busier_backend_is_not_chosen<F: Fn(usize, u64) -> u64>(
    tracker: ConnectionTracker,
    backends: &[SocketAddr],
    cost: F,
    choice: Option<SocketAddr>,
    idle: SocketAddr,
    busy: SocketAddr,
)
    requires
        call_ensures(ConnectionTracker::get_best_l7::<F>, (&tracker, backends, cost), choice),
        backends@.contains(idle),
        tracker@.contains_key(idle),
        tracker@.contains_key(busy),
        tracker@[idle].ewma_latency_bits == tracker@[busy].ewma_latency_bits,
        tracker@[idle].active_requests < tracker@[busy].active_requests,
        forall|active: usize, latency: u64, value: u64| #[trigger]
            cost.ensures((active, latency), value) ==> float_bits::is_number(value),
        forall|few: usize, many: usize, latency: u64, x: u64, y: u64| #[trigger]
            cost.ensures((few, latency), x) && #[trigger] cost.ensures((many, latency), y) && few
                < many ==> float_bits::less(x, y),
    ensures
        choice is Some,
        choice != Some(busy),
{
    let addrs = backends@;
    let f = choose|f: int| 0 <= f < addrs.len() && addrs[f] == idle;
    let costs = choose|costs: Seq<u64>| #[trigger]
        are_costs(tracker@, addrs, cost, costs) && choice == Some(addrs[cheapest(costs)]);
    assert forall|i: int| 0 <= i < costs.len() implies float_bits::is_number(
        #[trigger] costs[i],
    ) by {
        assert(is_cost(tracker@, addrs[i], cost, costs[i]));
    }
    cheapest_is_the_first_minimum(costs);
    let c = cheapest(costs);
    assert(is_cost(tracker@, addrs[f], cost, costs[f]));
    assert(is_cost(tracker@, addrs[c], cost, costs[c]));
    if addrs[c] == busy {
        assert(float_bits::less(costs[f], costs[c]));
    }
}

/// The choice by cost is one of the backends, and there is one whenever there is a
/// backend: the first of those that no other costs less than, as far as costs are
/// numbers.
pub proof fn l7_choice_costs_least<F: Fn(usize, u64) -> u64>(
    tracker: ConnectionTracker,
    backends: &[SocketAddr],
    cost: F,
    choice: Option<SocketAddr>,
)
    requires
        call_ensures(ConnectionTracker::get_best_l7::<F>, (&tracker, backends, cost), choice),
        forall|active: usize, latency: u64, value: u64| #[trigger]
            cost.ensures((active, latency), value) ==> float_bits::is_number(value),
    ensures
        choice is Some <==> backends@.len() > 0,
        choice matches Some(chosen) ==> exists|costs: Seq<u64>, c: int|
            #![trigger are_costs(tracker@, backends@, cost, costs), backends@[c]]
            {
                &&& are_costs(tracker@, backends@, cost, costs)
                &&& 0 <= c < backends@.len()
                &&& backends@[c] == chosen
                &&& forall|j: int|
                    0 <= j < backends@.len() ==> !float_bits::less(#[trigger] costs[j], costs[c])
                &&& forall|j: int| 0 <= j < c ==> float_bits::less(costs[c], #[trigger] costs[j])
            },
{
    let addrs = backends@;
    if addrs.len() > 0 {
        let costs = choose|costs: Seq<u64>| #[trigger]
            are_costs(tracker@, addrs, cost, costs) && choice == Some(addrs[cheapest(costs)]);
        assert forall|i: int| 0 <= i < costs.len() implies float_bits::is_number(
            #[trigger] costs[i],
        ) by {
            assert(is_cost(tracker@, addrs[i], cost, costs[i]));
        }
        cheapest_is_the_first_minimum(costs);
        let c = cheapest(costs);
        assert(addrs[c] == choice->0);
    }
}

/// The choice by load is one of the backends, and there is one whenever there is a
/// backend: no backend has fewer requests under way, and those listed before it have more.
/// A backend without metrics has none under way.
pub proof fn l4_choice_has_the_fewest_requests(
    tracker: ConnectionTracker,
    backends: &[SocketAddr],
    choice: Option<SocketAddr>,
)
    requires
        call_ensures(ConnectionTracker::get_best_l4, (&tracker, backends), choice),
    ensures
        choice is Some <==> backends@.len() > 0,
        choice matches Some(chosen) ==> exists|c: int|
            #![trigger backends@[c]]
            {
                &&& 0 <= c < backends@.len()
                &&& backends@[c] == chosen
                &&& forall|j: int|
                    0 <= j < backends@.len() && tracker@.contains_key(chosen)
                        && tracker@[chosen].active_requests > 0 ==> tracker@.contains_key(
                        #[trigger] backends@[j],
                    ) && tracker@[chosen].active_requests
                        <= tracker@[backends@[j]].active_requests
                &&& forall|j: int|
                    0 <= j < c ==> tracker@.contains_key(#[trigger] backends@[j])
                        && tracker@[backends@[j]].active_requests > if tracker@.contains_key(
                        chosen,
                    ) {
                        tracker@[chosen].active_requests as int
                    } else {
                        0
                    }
            },
{
    if backends@.len() > 0 {
        let counts = loads(tracker@, backends@);
        let c = choose|c: int|
            #[trigger] is_first_least(counts, c) && choice == Some(backends@[c]);
        assert(backends@[c] == choice->0);
        assert forall|j: int|
            0 <= j < backends@.len() && tracker@.contains_key(choice->0)
                && tracker@[choice->0].active_requests > 0 implies tracker@.contains_key(
            #[trigger] backends@[j],
        ) && tracker@[choice->0].active_requests
            <= tracker@[backends@[j]].active_requests by {
            assert(counts[c] <= counts[j]);
        }
        assert forall|j: int| 0 <= j < c implies tracker@.contains_key(#[trigger] backends@[j])
            && tracker@[backends@[j]].active_requests > if tracker@.contains_key(choice->0) {
            tracker@[choice->0].active_requests as int
        } else {
            0
        } by {
            assert(counts[c] < counts[j]);
        }
    }
}

/// A client is pinned by counting: where `sorted` holds the backends with each text before
/// the ones that follow, the client gets the one at the place of its hash, taken modulo
/// their number.
pub proof fn client_is_pinned_by_its_hash(
    tracker: ConnectionTracker,
    ip: IpAddr,
    backends: &[Endpoint],
    sorted: Seq<(SocketAddr, Seq<char>)>,
    choice: Option<SocketAddr>,
)
    requires
        call_ensures(ConnectionTracker::get_sticky_backend, (&tracker, ip, backends), choice),
        sorted.to_multiset() == health::endpoint_views(backends@).to_multiset(),
        forall|i: int, j: int|
            0 <= i < j < sorted.len() ==> crate::text::precedes(
                (#[trigger] sorted[i]).1,
                (#[trigger] sorted[j]).1,
            ),
    ensures
        sorted.len() == backends@.len(),
        backends@.len() == 0 ==> choice is None,
        backends@.len() > 0 ==> choice == Some(
            sorted[(addr::ip_hash(ip) as usize) as int % backends@.len() as int].0,
        ),
{
    let list = health::endpoint_views(backends@);
    let order = ranking::text_order();
    assert(vstd::relations::sorted_by(sorted, order)) by {
        assert forall|i: int, j: int| 0 <= i < j < sorted.len() implies #[trigger] order(
            sorted[i],
            sorted[j],
        ) by {
            assert(crate::text::precedes(sorted[i].1, sorted[j].1));
        }
    }
    ranking::ranked_is_unique(list, sorted);
}

/// The load of a backend is the number of requests under way to it, none without metrics.
pub proof fn load_is_the_requests_under_way(
    tracker: ConnectionTracker,
    addr: SocketAddr,
    load: usize,
)
    requires
        call_ensures(ConnectionTracker::load, (&tracker, addr), load),
    ensures
        load == load_of(tracker@, addr),
        tracker@.contains_key(addr) ==> load == tracker@[addr].active_requests,
        !tracker@.contains_key(addr) ==> load == 0,
{
}

/// Among backends of which one has as many requests under way as another and a lower
/// average latency, the other is not the cheapest: this holds for every cost function that
/// gives numbers and grows with the latency.
pub proof fn slower_backend_is_not_cheapest<F: Fn(usize, u64) -> u64>(
    stats: Map<SocketAddr, BackendStats>,
    addrs: Seq<SocketAddr>,
    cost: F,
    costs: Seq<u64>,
    fast: SocketAddr,
    slow: SocketAddr,
)
    requires
        are_costs(stats, addrs, cost, costs),
        addrs.contains(fast),
        stats.contains_key(fast),
        stats.contains_key(slow),
        stats[fast].active_requests == stats[slow].active_requests,
        stats[fast].ewma_latency_bits != 0,
        stats[fast].ewma_latency_bits != 0x8000_0000_0000_0000,
        stats[slow].ewma_latency_bits != 0,
        stats[slow].ewma_latency_bits != 0x8000_0000_0000_0000,
        float_bits::less(stats[fast].ewma_latency_bits, stats[slow].ewma_latency_bits),
        forall|active: usize, latency: u64, value: u64| #[trigger]
            cost.ensures((active, latency), value) ==> float_bits::is_number(value),
        forall|active: usize, low: u64, high: u64, x: u64, y: u64| #[trigger]
            cost.ensures((active, low), x) && #[trigger] cost.ensures((active, high), y)
                && float_bits::less(low, high) ==> float_bits::less(x, y),
    ensures
        0 <= cheapest(costs) < addrs.len(),
        addrs[cheapest(costs)] != slow,
{
    let f = choose|f: int| 0 <= f < addrs.len() && addrs[f] == fast;
    assert forall|i: int| 0 <= i < costs.len() implies float_bits::is_number(
        #[trigger] costs[i],
    ) by {
        assert(is_cost(stats, addrs[i], cost, costs[i]));
    }
    cheapest_is_the_first_minimum(costs);
    let c = cheapest(costs);
    assert(is_cost(stats, addrs[f], cost, costs[f]));
    assert(is_cost(stats, addrs[c], cost, costs[c]));
    if addrs[c] == slow {
        assert(cost.ensures(
            (stats[fast].active_requests, stats[fast].ewma_latency_bits),
            costs[f],
        ));
        assert(cost.ensures(
            (stats[slow].active_requests, stats[slow].ewma_latency_bits),
            costs[c],
        ));
        assert(float_bits::less(costs[f], costs[c]));
    }
}

/// What the end of a request leaves: its backend has one request less under way; the time
/// of the update is a reading of the system clock, taken for this end; the average is the
/// latency if it is the first or a peak, and otherwise what `decay` makes of it over the
/// milliseconds from the last update to that reading. No other backend is touched, and
/// without a reading nothing is.
pub proof fn ended_request_is_recorded_by_the_clock<F: Fn(u64, u64, u64) -> u64>(
    tracker: &mut ConnectionTracker,
    addr: SocketAddr,
    rtt: u64,
    decay: F,
    r: Result<(), ClockError>,
    other: SocketAddr,
)
    requires
        call_ensures(
            ConnectionTracker::dec_and_update_ewma::<F>,
            (tracker, addr, rtt, decay),
            r,
        ),
        other != addr,
    ensures
        !old(tracker)@.contains_key(addr) ==> r is Ok && final(tracker)@ == old(tracker)@,
        r is Err ==> clock::shows(Err(ClockError)) && final(tracker)@ == old(tracker)@,
        r is Ok && old(tracker)@.contains_key(addr) ==> {
            let before = old(tracker)@[addr];
            let after = final(tracker)@[addr];
            &&& final(tracker)@.contains_key(addr)
            &&& clock::shows(Ok(after.last_update_ms))
            &&& after.active_requests == if before.active_requests > 0 {
                before.active_requests - 1
            } else {
                0
            }
            &&& if before.ewma_latency_bits == 0 || before.ewma_latency_bits
                == 0x8000_0000_0000_0000 || float_bits::less(before.ewma_latency_bits, rtt) {
                after.ewma_latency_bits == rtt
            } else {
                decay.ensures(
                    (
                        before.ewma_latency_bits,
                        rtt,
                        if after.last_update_ms >= before.last_update_ms {
                            (after.last_update_ms - before.last_update_ms) as u64
                        } else {
                            0u64
                        },
                    ),
                    after.ewma_latency_bits,
                )
            }
        },
        final(tracker)@.contains_key(other) == old(tracker)@.contains_key(other),
        old(tracker)@.contains_key(other) ==> final(tracker)@[other] == old(tracker)@[other],
{
}

/// What the beginning of a request leaves: its backend has one request more under way, and
/// its average and the time of its update stay. A backend without metrics gets them as of a
/// reading of the system clock. No other backend is touched, and without a reading nothing
/// is.
pub proof fn begun_request_is_recorded(
    tracker: &mut ConnectionTracker,
    addr: SocketAddr,
    r: Result<(), ClockError>,
    other: SocketAddr,
)
    requires
        call_ensures(ConnectionTracker::inc, (tracker, addr), r),
        other != addr,
    ensures
        old(tracker)@.contains_key(addr) ==> r is Ok,
        r is Err ==> clock::shows(Err(ClockError)) && final(tracker)@ == old(tracker)@,
        r is Ok ==> final(tracker)@.contains_key(addr),
        r is Ok && old(tracker)@.contains_key(addr) && old(tracker)@[addr].active_requests
            < usize::MAX ==> final(tracker)@[addr] == (BackendStats {
            active_requests: (old(tracker)@[addr].active_requests + 1) as usize,
            ..old(tracker)@[addr]
        }),
        r is Ok && !old(tracker)@.contains_key(addr) ==> {
            &&& final(tracker)@[addr].active_requests == 1
            &&& final(tracker)@[addr].ewma_latency_bits == 0
            &&& clock::shows(Ok(final(tracker)@[addr].last_update_ms))
        },
        final(tracker)@.contains_key(other) == old(tracker)@.contains_key(other),
        old(tracker)@.contains_key(other) ==> final(tracker)@[other] == old(tracker)@[other],
{
}

/// What the end of a connection leaves whose latency is not taken: its backend has one
/// less under way, down to none, and nothing else has changed.
pub proof fn ended_connection_is_recorded(
    tracker: &mut ConnectionTracker,
    addr: SocketAddr,
    other: SocketAddr,
)
    requires
        call_ensures(ConnectionTracker::dec, (tracker, addr), ()),
        other != addr,
    ensures
        final(tracker)@.contains_key(addr) == old(tracker)@.contains_key(addr),
        old(tracker)@.contains_key(addr) ==> final(tracker)@[addr] == (BackendStats {
            active_requests: if old(tracker)@[addr].active_requests > 0 {
                (old(tracker)@[addr].active_requests - 1) as usize
            } else {
                0
            },
            ..old(tracker)@[addr]
        }),
        final(tracker)@.contains_key(other) == old(tracker)@.contains_key(other),
        old(tracker)@.contains_key(other) ==> final(tracker)@[other] == old(tracker)@[other],
{
}

/// The metrics of a backend first seen are those of an idle one, as of a reading of the
/// system clock; there are none only for want of a reading after the epoch.
pub proof fn first_metrics_are_idle(r: Result<BackendStats, ClockError>)
    requires
        call_ensures(BackendStats::new, (), r),
    ensures
        r matches Ok(stats) ==> stats.active_requests == 0 && stats.ewma_latency_bits == 0
            && clock::shows(Ok(stats.last_update_ms)),
        r is Err ==> clock::shows(Err(ClockError)),
{
}

/// What the end of a request at a given time leaves: its backend has one request less under
/// way and that time as the time of its update; the average is the latency if it is the
/// first or a peak, and otherwise what `decay` makes of it over the milliseconds since the
/// last update. No other backend is touched.
pub proof fn ended_request_is_recorded<F: Fn(u64, u64, u64) -> u64>(
    tracker: &mut ConnectionTracker,
    addr: SocketAddr,
    rtt: u64,
    now_ms: u64,
    decay: F,
    other: SocketAddr,
)
    requires
        call_ensures(
            ConnectionTracker::dec_and_update_ewma_at::<F>,
            (tracker, addr, rtt, now_ms, decay),
            (),
        ),
        other != addr,
    ensures
        !old(tracker)@.contains_key(addr) ==> final(tracker)@ == old(tracker)@,
        old(tracker)@.contains_key(addr) ==> {
            let before = old(tracker)@[addr];
            let after = final(tracker)@[addr];
            &&& final(tracker)@.contains_key(addr)
            &&& after.last_update_ms == now_ms
            &&& after.active_requests == if before.active_requests > 0 {
                before.active_requests - 1
            } else {
                0
            }
            &&& if before.ewma_latency_bits == 0 || before.ewma_latency_bits
                == 0x8000_0000_0000_0000 || float_bits::less(before.ewma_latency_bits, rtt) {
                after.ewma_latency_bits == rtt
            } else {
                decay.ensures(
                    (
                        before.ewma_latency_bits,
                        rtt,
                        if now_ms >= before.last_update_ms {
                            (now_ms - before.last_update_ms) as u64
                        } else {
                            0u64
                        },
                    ),
                    after.ewma_latency_bits,
                )
            }
        },
        final(tracker)@.contains_key(other) == old(tracker)@.contains_key(other),
        old(tracker)@.contains_key(other) ==> final(tracker)@[other] == old(tracker)@[other],
{
}

/// What the beginning of a request at a given time leaves: its backend has one request more
/// under way, and one without metrics gets them as of that time. No other is touched.
pub proof fn begun_request_is_recorded_at_its_time(
    tracker: &mut ConnectionTracker,
    addr: SocketAddr,
    now_ms: u64,
    other: SocketAddr,
)
    requires
        call_ensures(ConnectionTracker::inc_at, (tracker, addr, now_ms), ()),
        other != addr,
    ensures
        final(tracker)@.contains_key(addr),
        old(tracker)@.contains_key(addr) && old(tracker)@[addr].active_requests < usize::MAX
            ==> final(tracker)@[addr] == (BackendStats {
            active_requests: (old(tracker)@[addr].active_requests + 1) as usize,
            ..old(tracker)@[addr]
        }),
        !old(tracker)@.contains_key(addr) ==> final(tracker)@[addr] == (BackendStats {
            active_requests: 1,
            ewma_latency_bits: 0,
            last_update_ms: now_ms,
        }),
        final(tracker)@.contains_key(other) == old(tracker)@.contains_key(other),
        old(tracker)@.contains_key(other) ==> final(tracker)@[other] == old(tracker)@[other],
{
}

/// A tracker begins without metrics, and gives out those that it holds.
pub proof fn tracker_gives_out_what_it_holds(
    fresh: ConnectionTracker,
    tracker: ConnectionTracker,
    addr: SocketAddr,
    stats: Option<BackendStats>,
    load: usize,
    average: u64,
)
    requires
        call_ensures(ConnectionTracker::new, (), fresh),
        call_ensures(ConnectionTracker::stats_of, (&tracker, addr), stats),
        call_ensures(ConnectionTracker::load, (&tracker, addr), load),
        stats is Some ==> call_ensures(BackendStats::get_ewma, (&stats->0,), average),
    ensures
        !fresh@.contains_key(addr),
        stats is Some <==> tracker@.contains_key(addr),
        stats matches Some(found) ==> found == tracker@[addr] && load
            == found.active_requests && average == found.ewma_latency_bits,
        stats is None ==> load == 0,
{
}

/// The metrics of a backend first seen are those of an idle one, as of the time that they
/// are made for; without a time there are none.
pub proof fn metrics_are_made_for_a_time(
    now_ms: u64,
    at: BackendStats,
    reading: Result<u64, ClockError>,
    made: Result<BackendStats, ClockError>,
)
    requires
        call_ensures(BackendStats::at, (now_ms,), at),
        call_ensures(BackendStats::from_reading, (reading,), made),
    ensures
        at == (BackendStats { active_requests: 0, ewma_latency_bits: 0, last_update_ms: now_ms }),
        made is Ok <==> reading is Ok,
        made matches Ok(stats) ==> stats == (BackendStats {
            active_requests: 0,
            ewma_latency_bits: 0,
            last_update_ms: reading->Ok_0,
        }),
{
}

} // verus!
