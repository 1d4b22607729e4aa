//! Least-connections routing over a table that can change while connections are
//! open.

use crate::text;
use vstd::prelude::*;

verus! {

/// A backend as the contracts see it.
///
/// The connections of a backend are counted under `counter`. A backend that stays
/// in the table keeps its counter, and backends with the same counter have the
/// same address and the same count.
pub struct BackendView {
    pub address: Seq<char>,
    pub is_healthy: bool,
    pub counter: u64,
    pub active: usize,
}

/// A server that connections can be routed to.
pub struct Backend {
    /// Where the server listens.
    pub address: String,
    /// Whether the last probe reached it.
    pub is_healthy: bool,
    counter: u64,
    active_connections: usize,
}

impl View for Backend {
    type V = BackendView;

    closed spec fn view(&self) -> BackendView {
        BackendView {
            address: self.address@,
            is_healthy: self.is_healthy,
            counter: self.counter,
            active: self.active_connections,
        }
    }
}

/// A connection that is being counted. It goes back to the table when the
/// connection ends.
pub struct ConnectionTracker {
    counter: u64,
    address: String,
}

impl ConnectionTracker {
    /// The counter that the connection is counted under.
    pub closed spec fn counter(&self) -> u64 {
        self.counter
    }

    /// The address of the backend that the connection was routed to.
    pub closed spec fn target(&self) -> Seq<char> {
        self.address@
    }

    /// The address of the backend that the connection was routed to.
    pub fn address(&self) -> (r: &String)
        ensures
            r@ == self.target(),
    {
        &self.address
    }
}

/// What a probe changed.
#[derive(Clone, Copy, Debug, PartialEq, Eq, Structural)]
pub enum Change {
    /// A dead backend answers again.
    BackOnline,
    /// A healthy backend no longer answers.
    WentDown,
}

/// One more; the count starts over after its largest value.
pub open spec fn raised(n: usize) -> usize {
    if n == usize::MAX {
        0
    } else {
        (n + 1) as usize
    }
}

/// One less; below zero the count goes on at its largest value.
pub open spec fn lowered(n: usize) -> usize {
    if n == 0 {
        usize::MAX
    } else {
        (n - 1) as usize
    }
}

/// A backend that has just been put into the table.
pub open spec fn fresh(address: Seq<char>, counter: u64) -> BackendView {
    BackendView { address, is_healthy: true, counter, active: 0 }
}

/// Where `address` first stands in `table`; the length of `table` if it does not.
pub open spec fn place(table: Seq<BackendView>, address: Seq<char>) -> int
    decreases table.len(),
{
    if table.len() == 0 || table.first().address == address {
        0
    } else {
        1 + place(table.drop_first(), address)
    }
}

/// Whether `address` stands in `table`.
pub open spec fn listed(table: Seq<BackendView>, address: Seq<char>) -> bool {
    place(table, address) < table.len()
}

/// How many of `addresses` do not stand in `table`.
pub open spec fn newcomers(table: Seq<BackendView>, addresses: Seq<Seq<char>>) -> nat
    decreases addresses.len(),
{
    if addresses.len() == 0 {
        0
    } else {
        newcomers(table, addresses.drop_last()) + if listed(table, addresses.last()) {
            0nat
        } else {
            1nat
        }
    }
}

/// The table for a new list of addresses. A listed address keeps its backend; the
/// others get fresh backends, counted under `next` and the numbers that follow.
pub open spec fn reloaded(
    table: Seq<BackendView>,
    addresses: Seq<Seq<char>>,
    next: u64,
) -> Seq<BackendView> {
    Seq::new(
        addresses.len(),
        |i: int|
            if listed(table, addresses[i]) {
                table[place(table, addresses[i])]
            } else {
                fresh(addresses[i], (next + newcomers(table, addresses.take(i))) as u64)
            },
    )
}

/// The table after one more connection under `counter`.
pub open spec fn acquired(table: Seq<BackendView>, counter: u64) -> Seq<BackendView> {
    Seq::new(
        table.len(),
        |i: int|
            if table[i].counter == counter {
                BackendView { active: raised(table[i].active), ..table[i] }
            } else {
                table[i]
            },
    )
}

/// The table after one connection less under `counter`.
pub open spec fn released(table: Seq<BackendView>, counter: u64) -> Seq<BackendView> {
    Seq::new(
        table.len(),
        |i: int|
            if table[i].counter == counter {
                BackendView { active: lowered(table[i].active), ..table[i] }
            } else {
                table[i]
            },
    )
}

/// `i` is the place of the healthy backend with the fewest connections, and of
/// those with equally few the first.
pub open spec fn is_choice(table: Seq<BackendView>, i: int) -> bool {
    &&& 0 <= i < table.len()
    &&& table[i].is_healthy
    &&& forall|j: int|
        0 <= j < table.len() && (#[trigger] table[j]).is_healthy ==> table[i].active
            <= table[j].active && (j < i ==> table[i].active < table[j].active)
}

/// The table after a probe of `address`.
pub open spec fn probed(table: Seq<BackendView>, address: Seq<char>, alive: bool) -> Seq<
    BackendView,
> {
    if listed(table, address) {
        let i = place(table, address);
        table.update(i, BackendView { is_healthy: alive, ..table[i] })
    } else {
        table
    }
}

/// What a probe of `address` changes.
pub open spec fn change(table: Seq<BackendView>, address: Seq<char>, alive: bool) -> Option<
    Change,
> {
    if listed(table, address) && table[place(table, address)].is_healthy != alive {
        if alive {
            Some(Change::BackOnline)
        } else {
            Some(Change::WentDown)
        }
    } else {
        None
    }
}

/// The addresses of a table, in order.
pub open spec fn addresses_of(table: Seq<BackendView>) -> Seq<Seq<char>> {
    Seq::new(table.len(), |i: int| table[i].address)
}

/// Every counter is below `next`, and backends with one counter have one address and
/// one count.
pub open spec fn counted(table: Seq<BackendView>, next: u64) -> bool {
    &&& forall|i: int| 0 <= i < table.len() ==> (#[trigger] table[i]).counter < next
    &&& forall|i: int, j: int|
        0 <= i < table.len() && 0 <= j < table.len() && (#[trigger] table[i]).counter == (
        #[trigger] table[j]).counter ==> table[i].active == table[j].active && table[i].address
            == table[j].address
}

/// The place of an address is the first backend with that address.
pub proof fn place_is_first(table: Seq<BackendView>, address: Seq<char>)
    ensures
        0 <= place(table, address) <= table.len(),
        listed(table, address) ==> table[place(table, address)].address == address,
        forall|i: int| 0 <= i < place(table, address) ==> (#[trigger] table[i]).address != address,
    decreases table.len(),
{
    if table.len() > 0 && table.first().address != address {
        let rest = table.drop_first();
        place_is_first(rest, address);
        assert forall|i: int| 0 <= i < place(table, address) implies (#[trigger] table[i]).address
            != address by {
            if i > 0 {
                assert(rest[i - 1] == table[i]);
            }
        }
    }
}

proof fn place_is(table: Seq<BackendView>, address: Seq<char>, i: int)
    requires
        0 <= i <= table.len(),
        i < table.len() ==> table[i].address == address,
        forall|j: int| 0 <= j < i ==> (#[trigger] table[j]).address != address,
    ensures
        place(table, address) == i,
{
    place_is_first(table, address);
    let p = place(table, address);
    if p < i {
        assert(table[p].address != address);
    }
    if i < p {
        assert(table[i].address != address);
    }
}

proof fn newcomers_grow(table: Seq<BackendView>, addresses: Seq<Seq<char>>, i: int, j: int)
    requires
        0 <= i <= j <= addresses.len(),
    ensures
        newcomers(table, addresses.take(i)) <= newcomers(table, addresses.take(j)) <= j,
        i < j && !listed(table, addresses[i]) ==> newcomers(table, addresses.take(i)) < newcomers(
            table,
            addresses.take(j),
        ),
    decreases j,
{
    if j > 0 {
        assert(addresses.take(j).drop_last() =~= addresses.take(j - 1));
        if i < j {
            newcomers_grow(table, addresses, i, j - 1);
        } else {
            newcomers_grow(table, addresses, i - 1, j - 1);
        }
    }
}

/// Least-connections routing.
pub struct LeastConnections {
    backends: Vec<Backend>,
    next_counter: u64,
}

/// The backends of a list, as the contracts see them.
pub open spec fn backend_views(backends: Seq<Backend>) -> Seq<BackendView> {
    Seq::new(backends.len(), |i: int| backends[i]@)
}

impl View for LeastConnections {
    type V = Seq<BackendView>;

    closed spec fn view(&self) -> Seq<BackendView> {
        backend_views(self.backends@)
    }
}

impl LeastConnections {
    /// The counter that the next fresh backend gets.
    pub closed spec fn next(&self) -> u64 {
        self.next_counter
    }

    /// The table is well-formed.
    pub open spec fn wf(&self) -> bool {
        counted(self@, self.next())
    }

    /// Starts with a table of fresh backends.
    pub fn new(addresses: Vec<String>) -> (r: LeastConnections)
        ensures
            r.wf(),
            r@ == reloaded(Seq::empty(), text::texts(addresses@), 0),
            r.next() == addresses@.len(),
    {
        let mut r = LeastConnections { backends: Vec::new(), next_counter: 0 };
        proof {
            assert(r@ =~= Seq::empty());
            none_listed(text::texts(addresses@), addresses@.len() as int);
        }
        assert(addresses.len() <= u64::MAX);
        r.update_backends(addresses);
        r
    }

    /// How many counters have been handed out.
    pub fn counters_used(&self) -> (r: u64)
        ensures
            r == self.next(),
    {
        self.next_counter
    }

    fn find(&self, address: &String) -> (r: usize)
        ensures
            r == place(self@, address@),
            r <= self.backends@.len(),
    {
        let mut i: usize = 0;
        while i < self.backends.len()
            invariant
                i <= self.backends@.len(),
                forall|j: int| 0 <= j < i ==> (#[trigger] self@[j]).address != address@,
            decreases self.backends@.len() - i,
        {
            if self.backends[i].address == *address {
                proof {
                    assert(self@[i as int].address == address@);
                    place_is(self@, address@, i as int);
                }
                return i;
            }
            proof {
                assert(self@[i as int].address != address@);
            }
            i = i + 1;
        }
        proof {
            place_is(self@, address@, i as int);
        }
        i
    }

    /// Replaces the list of addresses. Backends that stay keep their health and
    /// their connections.
    pub fn update_backends(&mut self, new_addresses: Vec<String>)
        requires
            old(self).wf(),
            old(self).next() + new_addresses@.len() <= u64::MAX,
        ensures
            final(self).wf(),
            final(self)@ == reloaded(old(self)@, text::texts(new_addresses@), old(self).next()),
            final(self).next() == old(self).next() + newcomers(
                old(self)@,
                text::texts(new_addresses@),
            ),
    {
        let ghost table = self@;
        let ghost next = self.next();
        let ghost addresses = text::texts(new_addresses@);
        let mut updated: Vec<Backend> = Vec::new();
        let mut next_counter: u64 = self.next_counter;
        let mut i: usize = 0;
        proof {
            assert(addresses.take(0) =~= Seq::empty());
            assert(backend_views(updated@) =~= reloaded(table, addresses, next).take(0));
        }
        while i < new_addresses.len()
            invariant
                table == self@,
                next == self.next(),
                addresses == text::texts(new_addresses@),
                i <= new_addresses@.len(),
                next + new_addresses@.len() <= u64::MAX,
                next_counter == next + newcomers(table, addresses.take(i as int)),
                backend_views(updated@) == reloaded(table, addresses, next).take(i as int),
            decreases new_addresses@.len() - i,
        {
            let ghost before = backend_views(updated@);
            proof {
                assert(addresses.take(i + 1).drop_last() =~= addresses.take(i as int));
                newcomers_grow(table, addresses, i as int, i as int);
                place_is_first(table, addresses[i as int]);
            }
            let k: usize = self.find(&new_addresses[i]);
            let backend = if k < self.backends.len() {
                let kept = &self.backends[k];
                Backend {
                    address: kept.address.clone(),
                    is_healthy: kept.is_healthy,
                    counter: kept.counter,
                    active_connections: kept.active_connections,
                }
            } else {
                let counter: u64 = next_counter;
                next_counter = next_counter + 1;
                Backend {
                    address: new_addresses[i].clone(),
                    is_healthy: true,
                    counter,
                    active_connections: 0,
                }
            };
            proof {
                assert(backend@ == reloaded(table, addresses, next)[i as int]);
            }
            updated.push(backend);
            i = i + 1;
            proof {
                assert(backend_views(updated@) =~= before.push(backend@));
                assert(reloaded(table, addresses, next).take(i as int) =~= before.push(
                    reloaded(table, addresses, next)[i - 1],
                ));
            }
        }
        self.backends = updated;
        self.next_counter = next_counter;
        proof {
            assert(addresses.take(i as int) =~= addresses);
            assert(self@ =~= reloaded(table, addresses, next));
            reload_keeps_the_count(table, addresses, next);
        }
    }

    /// Routes a new connection to the healthy backend with the fewest connections,
    /// the first of those with equally few, and counts the connection there.
    pub fn next_target(&mut self) -> (r: Option<(String, ConnectionTracker)>)
        requires
            old(self).wf(),
        ensures
            final(self).wf(),
            final(self).next() == old(self).next(),
            match r {
                Some((address, tracker)) => {
                    &&& exists|i: int| #[trigger]
                        is_choice(old(self)@, i) && address@ == old(self)@[i].address
                            && tracker.counter() == old(self)@[i].counter
                    &&& tracker.target() == address@
                    &&& final(self)@ == acquired(old(self)@, tracker.counter())
                },
                None => {
                    &&& forall|i: int|
                        0 <= i < old(self)@.len() ==> !(#[trigger] old(self)@[i]).is_healthy
                    &&& final(self)@ == old(self)@
                },
            },
    {
        let ghost table = self@;
        let mut best: Option<usize> = None;
        let mut i: usize = 0;
        while i < self.backends.len()
            invariant
                table == self@,
                i <= self.backends@.len(),
                match best {
                    Some(b) => b < i && is_choice(table.take(i as int), b as int),
                    None => forall|j: int| 0 <= j < i ==> !(#[trigger] table[j]).is_healthy,
                },
            decreases self.backends@.len() - i,
        {
            let ghost seen = table.take(i as int);
            let ghost more = table.take(i + 1);
            proof {
                assert(table[i as int] == self.backends@[i as int]@);
                assert(forall|j: int| 0 <= j < i ==> more[j] == seen[j] && more[j] == table[j]);
                assert(more[i as int] == table[i as int]);
            }
            if self.backends[i].is_healthy {
                let better = match best {
                    Some(b) => {
                        proof {
                            assert(table[b as int] == self.backends@[b as int]@);
                            assert(seen[b as int] == table[b as int]);
                        }
                        self.backends[i].active_connections < self.backends[b].active_connections
                    },
                    None => true,
                };
                if better {
                    best = Some(i);
                }
            }
            proof {
                match best {
                    Some(b) => {
                        assert(more[b as int] == table[b as int]);
                        assert forall|j: int|
                            0 <= j < more.len() && (
                            #[trigger] more[j]).is_healthy implies more[b as int].active
                            <= more[j].active && (j < b ==> more[b as int].active
                            < more[j].active) by {
                            if j < i {
                                assert(seen[j] == more[j]);
                            }
                        }
                        assert(is_choice(more, b as int));
                    },
                    None => {},
                }
            }
            i = i + 1;
        }
        proof {
            assert(table.take(i as int) =~= table);
        }
        match best {
            Some(b) => {
                let counter: u64 = self.backends[b].counter;
                let address = self.backends[b].address.clone();
                proof {
                    assert(table[b as int] == self.backends@[b as int]@);
                    assert(is_choice(table, b as int));
                }
                self.count(counter, true);
                Some((address.clone(), ConnectionTracker { counter, address }))
            },
            None => None,
        }
    }

    fn count(&mut self, counter: u64, up: bool)
        requires
            old(self).wf(),
        ensures
            final(self).wf(),
            final(self).next() == old(self).next(),
            final(self)@ == if up {
                acquired(old(self)@, counter)
            } else {
                released(old(self)@, counter)
            },
    {
        let ghost table = self@;
        let ghost after = if up {
            acquired(table, counter)
        } else {
            released(table, counter)
        };
        let mut i: usize = 0;
        while i < self.backends.len()
            invariant
                self.next() == old(self).next(),
                self@.len() == table.len() == after.len(),
                self.backends@.len() == table.len(),
                i <= table.len(),
                after == if up {
                    acquired(table, counter)
                } else {
                    released(table, counter)
                },
                forall|j: int| 0 <= j < i ==> #[trigger] self@[j] == after[j],
                forall|j: int| i <= j < table.len() ==> #[trigger] self@[j] == table[j],
            decreases table.len() - i,
        {
            let ghost before = self@;
            proof {
                assert(before[i as int] == table[i as int]);
            }
            let backend = &self.backends[i];
            if backend.counter == counter {
                let active: usize = if up {
                    if backend.active_connections == usize::MAX {
                        0
                    } else {
                        backend.active_connections + 1
                    }
                } else {
                    if backend.active_connections == 0 {
                        usize::MAX
                    } else {
                        backend.active_connections - 1
                    }
                };
                let changed = Backend {
                    address: backend.address.clone(),
                    is_healthy: backend.is_healthy,
                    counter: backend.counter,
                    active_connections: active,
                };
                proof {
                    assert(changed@ == after[i as int]);
                }
                self.backends.set(i, changed);
                proof {
                    assert(self@ =~= before.update(i as int, changed@));
                }
            }
            i = i + 1;
        }
        proof {
            assert(self@ =~= after);
        }
    }

    /// Ends a connection: it is no longer counted.
    pub fn release(&mut self, tracker: ConnectionTracker)
        requires
            old(self).wf(),
        ensures
            final(self).wf(),
            final(self).next() == old(self).next(),
            final(self)@ == released(old(self)@, tracker.counter()),
    {
        self.count(tracker.counter, false);
    }

    /// The addresses to probe.
    pub fn addresses(&self) -> (r: Vec<String>)
        ensures
            text::texts(r@) == addresses_of(self@),
    {
        let mut r: Vec<String> = Vec::new();
        let mut i: usize = 0;
        while i < self.backends.len()
            invariant
                i <= self.backends@.len(),
                r@.len() == i,
                forall|j: int| 0 <= j < i ==> (#[trigger] r@[j])@ == addresses_of(self@)[j],
            decreases self.backends@.len() - i,
        {
            r.push(self.backends[i].address.clone());
            i = i + 1;
        }
        proof {
            assert(text::texts(r@) =~= addresses_of(self@));
        }
        r
    }

    /// Takes the outcome of a probe into the table, and tells what it changed.
    pub fn record_probe(&mut self, address: &String, is_alive: bool) -> (r: Option<Change>)
        requires
            old(self).wf(),
        ensures
            final(self).wf(),
            final(self).next() == old(self).next(),
            final(self)@ == probed(old(self)@, address@, is_alive),
            r == change(old(self)@, address@, is_alive),
    {
        let ghost table = self@;
        let k: usize = self.find(address);
        if k < self.backends.len() {
            let backend = &self.backends[k];
            proof {
                assert(table[k as int] == backend@);
                assert(table.update(k as int, table[k as int]) =~= table);
            }
            if backend.is_healthy != is_alive {
                let changed = Backend {
                    address: backend.address.clone(),
                    is_healthy: is_alive,
                    counter: backend.counter,
                    active_connections: backend.active_connections,
                };
                self.backends.set(k, changed);
                proof {
                    assert(self@ =~= table.update(k as int, changed@));
                    assert forall|j: int| 0 <= j < table.len() implies (
                    #[trigger] self@[j]).counter == table[j].counter && self@[j].active
                        == table[j].active && self@[j].address == table[j].address by {}
                }
                return Some(
                    if is_alive {
                        Change::BackOnline
                    } else {
                        Change::WentDown
                    },
                );
            }
        }
        None
    }
}

proof fn none_listed(addresses: Seq<Seq<char>>, i: int)
    requires
        0 <= i <= addresses.len(),
    ensures
        newcomers(Seq::empty(), addresses.take(i)) == i,
        i == addresses.len() ==> newcomers(Seq::empty(), addresses) == i,
    decreases i,
{
    if i > 0 {
        none_listed(addresses, i - 1);
        assert(addresses.take(i).drop_last() =~= addresses.take(i - 1));
    }
    if i == addresses.len() {
        assert(addresses.take(i) =~= addresses);
    }
}

/// A reload keeps the table well-formed: the counters of fresh backends are used
/// by no other backend.
pub proof fn reload_keeps_the_count(
    table: Seq<BackendView>,
    addresses: Seq<Seq<char>>,
    next: u64,
)
    requires
        counted(table, next),
        next + addresses.len() <= u64::MAX,
    ensures
        counted(
            reloaded(table, addresses, next),
            (next + newcomers(table, addresses)) as u64,
        ),
{
    let after = reloaded(table, addresses, next);
    let n = addresses.len() as int;
    assert(addresses.take(n) =~= addresses);
    assert forall|i: int| 0 <= i < after.len() implies (#[trigger] after[i]).counter < next
        + newcomers(table, addresses) && (listed(table, addresses[i]) ==> after[i].counter < next)
        && (!listed(table, addresses[i]) ==> after[i].counter == next + newcomers(
        table,
        addresses.take(i),
    ) && after[i].active == 0) by {
        newcomers_grow(table, addresses, i, n);
        place_is_first(table, addresses[i]);
        if listed(table, addresses[i]) {
            assert(table[place(table, addresses[i])].counter < next);
        }
    }
    newcomers_grow(table, addresses, n, n);
    assert forall|i: int, j: int|
        0 <= i < after.len() && 0 <= j < after.len() && (#[trigger] after[i]).counter == (
        #[trigger] after[j]).counter implies after[i].active == after[j].active
        && after[i].address == after[j].address by {
        place_is_first(table, addresses[i]);
        place_is_first(table, addresses[j]);
        if i < j {
            newcomers_grow(table, addresses, i, j);
        } else if j < i {
            newcomers_grow(table, addresses, j, i);
        }
        if listed(table, addresses[i]) && listed(table, addresses[j]) {
            assert(table[place(table, addresses[i])].active == table[place(
                table,
                addresses[j],
            )].active);
        }
    }
}

/// A connection leaves no trace: releasing it restores the table it was taken from.
pub proof fn connection_leaves_no_trace(table: Seq<BackendView>, counter: u64)
    ensures
        released(acquired(table, counter), counter) == table,
{
    assert(released(acquired(table, counter), counter) =~= table);
}

/// An event in the life of connections: one begins or ends under a counter.
pub enum Event {
    Begin(u64),
    End(u64),
}

/// The table after `events`.
pub open spec fn replayed(table: Seq<BackendView>, events: Seq<Event>) -> Seq<BackendView>
    decreases events.len(),
{
    if events.len() == 0 {
        table
    } else {
        match events.last() {
            Event::Begin(c) => acquired(replayed(table, events.drop_last()), c),
            Event::End(c) => released(replayed(table, events.drop_last()), c),
        }
    }
}

/// How many more connections begin than end under `counter`.
pub open spec fn balance(events: Seq<Event>, counter: u64) -> int
    decreases events.len(),
{
    if events.len() == 0 {
        0
    } else {
        balance(events.drop_last(), counter) + match events.last() {
            Event::Begin(c) => if c == counter {
                1int
            } else {
                0int
            },
            Event::End(c) => if c == counter {
                -1int
            } else {
                0int
            },
        }
    }
}

/// The count of a backend is the number of its open connections: what it was
/// before, and those that began, without those that ended. Nothing else of the
/// backend changes.
pub proof fn count_is_the_balance(table: Seq<BackendView>, events: Seq<Event>, i: int)
    requires
        0 <= i < table.len(),
        forall|n: int|
            0 <= n <= events.len() ==> 0 <= table[i].active + #[trigger] balance(
                events.take(n),
                table[i].counter,
            ) <= usize::MAX,
    ensures
        replayed(table, events).len() == table.len(),
        replayed(table, events)[i] == (BackendView {
            active: (table[i].active + balance(events, table[i].counter)) as usize,
            ..table[i]
        }),
    decreases events.len(),
{
    if events.len() > 0 {
        let before = events.drop_last();
        assert forall|n: int| 0 <= n <= before.len() implies 0 <= table[i].active
            + #[trigger] balance(before.take(n), table[i].counter) <= usize::MAX by {
            assert(before.take(n) =~= events.take(n));
        }
        count_is_the_balance(table, before, i);
        assert(events.take(events.len() as int) =~= events);
        assert(events.take(events.len() - 1) =~= before);
        assert(0 <= table[i].active + balance(events, table[i].counter) <= usize::MAX) by {
            assert(0 <= table[i].active + balance(
                events.take(events.len() as int),
                table[i].counter,
            ) <= usize::MAX);
        }
        assert(0 <= table[i].active + balance(before, table[i].counter) <= usize::MAX) by {
            assert(0 <= table[i].active + balance(
                events.take(events.len() - 1),
                table[i].counter,
            ) <= usize::MAX);
        }
    }
}

/// A reload loses no connection: an open connection can end before the reload or
/// after it, and the table is the same. `counter` is one that has been handed out.
pub proof fn reload_keeps_connections(
    table: Seq<BackendView>,
    addresses: Seq<Seq<char>>,
    next: u64,
    counter: u64,
)
    requires
        counter < next,
        next + addresses.len() <= u64::MAX,
    ensures
        reloaded(released(table, counter), addresses, next) == released(
            reloaded(table, addresses, next),
            counter,
        ),
{
    let ended = released(table, counter);
    same_addresses(table, ended, addresses);
    assert forall|i: int| 0 <= i < addresses.len() implies #[trigger] reloaded(
        ended,
        addresses,
        next,
    )[i] == released(reloaded(table, addresses, next), counter)[i] by {
        same_place(table, ended, addresses[i]);
        same_addresses(table, ended, addresses.take(i));
        place_is_first(table, addresses[i]);
        newcomers_grow(table, addresses, i, i);
    }
    assert(reloaded(ended, addresses, next) =~= released(
        reloaded(table, addresses, next),
        counter,
    ));
}

proof fn same_place(a: Seq<BackendView>, b: Seq<BackendView>, address: Seq<char>)
    requires
        addresses_of(a) == addresses_of(b),
    ensures
        place(a, address) == place(b, address),
        listed(a, address) == listed(b, address),
{
    assert(a.len() == addresses_of(a).len() && b.len() == addresses_of(b).len());
    assert forall|i: int| 0 <= i < a.len() implies (#[trigger] a[i]).address == b[i].address by {
        assert(addresses_of(a)[i] == addresses_of(b)[i]);
    }
    place_is_first(a, address);
    let p = place(a, address);
    assert forall|j: int| 0 <= j < p implies (#[trigger] b[j]).address != address by {
        assert(a[j].address != address);
    }
    place_is(b, address, p);
}

proof fn same_addresses(a: Seq<BackendView>, b: Seq<BackendView>, addresses: Seq<Seq<char>>)
    requires
        a.len() == b.len(),
        forall|i: int| 0 <= i < a.len() ==> (#[trigger] a[i]).address == b[i].address,
    ensures
        addresses_of(a) == addresses_of(b),
        newcomers(a, addresses) == newcomers(b, addresses),
    decreases addresses.len(),
{
    assert(addresses_of(a) =~= addresses_of(b));
    if addresses.len() > 0 {
        same_addresses(a, b, addresses.drop_last());
        same_place(a, b, addresses.last());
    }
}

/// A reload keeps every backend whose address stays, with its health and its
/// connections; the others start healthy and idle.
pub proof fn reload_keeps_known_backends(
    table: Seq<BackendView>,
    addresses: Seq<Seq<char>>,
    next: u64,
    i: int,
)
    requires
        0 <= i < addresses.len(),
    ensures
        reloaded(table, addresses, next)[i].address == addresses[i],
        listed(table, addresses[i]) ==> reloaded(table, addresses, next)[i] == table[place(
            table,
            addresses[i],
        )],
        !listed(table, addresses[i]) ==> reloaded(table, addresses, next)[i].is_healthy
            && reloaded(table, addresses, next)[i].active == 0,
{
    place_is_first(table, addresses[i]);
}

/// After a reload the table lists the new addresses, in their order.
pub proof fn reload_lists_the_addresses(
    table: Seq<BackendView>,
    addresses: Seq<Seq<char>>,
    next: u64,
)
    ensures
        addresses_of(reloaded(table, addresses, next)) == addresses,
{
    assert forall|i: int| 0 <= i < addresses.len() implies addresses_of(
        reloaded(table, addresses, next),
    )[i] == addresses[i] by {
        place_is_first(table, addresses[i]);
    }
    assert(addresses_of(reloaded(table, addresses, next)) =~= addresses);
}

/// A reload with the same addresses changes nothing, if no address stands twice.
pub proof fn same_list_changes_nothing(table: Seq<BackendView>, next: u64)
    requires
        addresses_of(table).no_duplicates(),
    ensures
        reloaded(table, addresses_of(table), next) == table,
        newcomers(table, addresses_of(table)) == 0,
{
    let addresses = addresses_of(table);
    assert forall|i: int| 0 <= i < table.len() implies place(table, #[trigger] addresses[i])
        == i by {
        assert forall|j: int| 0 <= j < i implies (#[trigger] table[j]).address
            != addresses[i] by {
            assert(addresses[j] != addresses[i]);
        }
        place_is(table, addresses[i], i);
    }
    assert(reloaded(table, addresses, next) =~= table);
    all_listed(table, addresses);
}

proof fn all_listed(table: Seq<BackendView>, addresses: Seq<Seq<char>>)
    requires
        forall|i: int| 0 <= i < addresses.len() ==> listed(table, #[trigger] addresses[i]),
    ensures
        newcomers(table, addresses) == 0,
    decreases addresses.len(),
{
    if addresses.len() > 0 {
        let before = addresses.drop_last();
        assert forall|i: int| 0 <= i < before.len() implies listed(
            table,
            #[trigger] before[i],
        ) by {
            assert(before[i] == addresses[i]);
        }
        all_listed(table, before);
        assert(listed(table, addresses[addresses.len() - 1]));
    }
}

/// A connection is counted at its own backend only: no backend with another address
/// is touched when it begins or ends.
pub proof fn connection_touches_its_backend_only(
    table: Seq<BackendView>,
    next: u64,
    i: int,
    other: int,
)
    requires
        counted(table, next),
        0 <= i < table.len(),
        0 <= other < table.len(),
        table[other].address != table[i].address,
    ensures
        acquired(table, table[i].counter)[i].active == raised(table[i].active),
        released(table, table[i].counter)[i].active == lowered(table[i].active),
        acquired(table, table[i].counter)[other] == table[other],
        released(table, table[i].counter)[other] == table[other],
{
}

/// A connection of a backend that stays is released there after the reload, and
/// nowhere else.
pub proof fn kept_connection_is_released(
    table: Seq<BackendView>,
    addresses: Seq<Seq<char>>,
    next: u64,
    i: int,
    j: int,
    other: int,
)
    requires
        counted(table, next),
        addresses_of(table).no_duplicates(),
        addresses.no_duplicates(),
        next + addresses.len() <= u64::MAX,
        0 <= i < table.len(),
        0 <= j < addresses.len(),
        addresses[j] == table[i].address,
        0 <= other < addresses.len(),
        other != j,
    ensures
        ({
            let after = reloaded(table, addresses, next);
            let ended = released(after, table[i].counter);
            &&& after[j] == table[i]
            &&& ended[j].active == lowered(after[j].active)
            &&& ended[other] == after[other]
        }),
{
    place_is_first(table, table[i].address);
    let p = place(table, table[i].address);
    if p < i {
        assert(addresses_of(table)[p] != addresses_of(table)[i]);
    } else if i < p {
        assert(table[i].address != table[i].address);
    }
    reload_keeps_the_count(table, addresses, next);
    reload_keeps_known_backends(table, addresses, next, j);
    reload_keeps_known_backends(table, addresses, next, other);
    let after = reloaded(table, addresses, next);
    assert(after[other].address != after[j].address);
}

proof fn gone_counter_stays_gone(
    table: Seq<BackendView>,
    addresses: Seq<Seq<char>>,
    next: u64,
    counter: u64,
)
    requires
        counter < next,
        next + addresses.len() <= u64::MAX,
        forall|j: int| 0 <= j < table.len() ==> (#[trigger] table[j]).counter != counter,
    ensures
        forall|j: int|
            0 <= j < addresses.len() ==> (#[trigger] reloaded(table, addresses, next)[j]).counter
                != counter,
{
    assert forall|j: int| 0 <= j < addresses.len() implies (
    #[trigger] reloaded(table, addresses, next)[j]).counter != counter by {
        place_is_first(table, addresses[j]);
        newcomers_grow(table, addresses, j, j);
    }
}

/// A backend that is removed starts over: its open connections touch no count of the
/// new table when they end, and none of a later table that brings the address back. It
/// comes back healthy and idle.
pub proof fn removed_backend_starts_over(
    table: Seq<BackendView>,
    gone: Seq<Seq<char>>,
    back: Seq<Seq<char>>,
    next: u64,
    i: int,
)
    requires
        counted(table, next),
        next + gone.len() + back.len() <= u64::MAX,
        0 <= i < table.len(),
        !gone.contains(table[i].address),
    ensures
        ({
            let without = reloaded(table, gone, next);
            let again = reloaded(without, back, (next + newcomers(table, gone)) as u64);
            &&& released(without, table[i].counter) == without
            &&& released(again, table[i].counter) == again
            &&& forall|j: int|
                0 <= j < back.len() && #[trigger] back[j] == table[i].address
                    ==> again[j].is_healthy && again[j].active == 0
        }),
{
    let counter = table[i].counter;
    let without = reloaded(table, gone, next);
    let later = (next + newcomers(table, gone)) as u64;
    let again = reloaded(without, back, later);
    newcomers_grow(table, gone, gone.len() as int, gone.len() as int);
    assert(gone.take(gone.len() as int) =~= gone);
    assert forall|j: int| 0 <= j < without.len() implies (#[trigger] without[j]).counter
        != counter by {
        place_is_first(table, gone[j]);
        newcomers_grow(table, gone, j, j);
        assert(gone.contains(gone[j]));
        if listed(table, gone[j]) {
            let p = place(table, gone[j]);
            assert(table[p].address != table[i].address);
        }
    }
    gone_counter_stays_gone(without, back, later, counter);
    assert(released(without, counter) =~= without);
    assert(released(again, counter) =~= again);
    reload_lists_the_addresses(table, gone, next);
    assert forall|j: int| 0 <= j < back.len() && #[trigger] back[j]
        == table[i].address implies again[j].is_healthy && again[j].active == 0 by {
        place_is_first(without, back[j]);
        if listed(without, back[j]) {
            let p = place(without, back[j]);
            assert(addresses_of(without)[p] == gone[p]);
            assert(gone.contains(gone[p]));
        }
    }
}

/// `after` is the table after a connection has been routed over `before`.
pub open spec fn is_routed(before: Seq<BackendView>, after: Seq<BackendView>) -> bool {
    exists|i: int| #[trigger] is_choice(before, i) && after == acquired(before, before[i].counter)
}

/// The tables in the course of routing one connection after the other, all of them
/// kept open.
pub open spec fn is_filling(tables: Seq<Seq<BackendView>>) -> bool {
    forall|m: int|
        #![trigger tables[m]]
        0 <= m < tables.len() - 1 ==> is_routed(tables[m], tables[m + 1])
}

/// The connections of all backends.
pub open spec fn total(table: Seq<BackendView>) -> nat
    decreases table.len(),
{
    if table.len() == 0 {
        0
    } else {
        total(table.drop_last()) + table.last().active as nat
    }
}

proof fn total_without(table: Seq<BackendView>, i: int)
    requires
        0 <= i < table.len(),
    ensures
        total(table) == total(table.remove(i)) + table[i].active,
    decreases table.len(),
{
    if i < table.len() - 1 {
        total_without(table.drop_last(), i);
        assert(table.remove(i).drop_last() =~= table.drop_last().remove(i));
    } else {
        assert(table.remove(i) =~= table.drop_last());
    }
}

proof fn total_between(table: Seq<BackendView>, low: int, high: int)
    requires
        forall|i: int| 0 <= i < table.len() ==> low <= (#[trigger] table[i]).active <= high,
    ensures
        table.len() * low <= total(table) <= table.len() * high,
    decreases table.len(),
{
    if table.len() > 0 {
        let init = table.drop_last();
        assert forall|i: int| 0 <= i < init.len() implies low <= (#[trigger] init[i]).active
            <= high by {
            assert(init[i] == table[i]);
        }
        total_between(init, low, high);
        let n = table.len() as int;
        assert(n * low == (n - 1) * low + low) by (nonlinear_arith);
        assert(n * high == (n - 1) * high + high) by (nonlinear_arith);
        assert(table[n - 1] == table.last());
    }
}

/// Routing keeps all counts within one of each other, and adds one to their total.
proof fn routing_stays_level(before: Seq<BackendView>, next: u64, after: Seq<BackendView>)
    requires
        counted(before, next),
        addresses_of(before).no_duplicates(),
        forall|i: int| 0 <= i < before.len() ==> (#[trigger] before[i]).is_healthy,
        forall|i: int, j: int|
            0 <= i < before.len() && 0 <= j < before.len() ==> (#[trigger] before[i]).active <= (
            #[trigger] before[j]).active + 1,
        total(before) < usize::MAX,
        is_routed(before, after),
    ensures
        counted(after, next),
        addresses_of(after) == addresses_of(before),
        forall|i: int| 0 <= i < after.len() ==> (#[trigger] after[i]).is_healthy,
        forall|i: int, j: int|
            0 <= i < after.len() && 0 <= j < after.len() ==> (#[trigger] after[i]).active <= (
            #[trigger] after[j]).active + 1,
        total(after) == total(before) + 1,
{
    let c = choose|c: int| #[trigger]
        is_choice(before, c) && after == acquired(before, before[c].counter);
    total_without(before, c);
    assert forall|j: int| 0 <= j < before.len() && j != c implies #[trigger] after[j]
        == before[j] by {
        assert(addresses_of(before)[j] != addresses_of(before)[c]);
        assert(before[j].counter != before[c].counter);
    }
    assert(after[c].active == before[c].active + 1);
    assert(addresses_of(after) =~= addresses_of(before));
    total_without(after, c);
    assert(after.remove(c) =~= before.remove(c));
    assert forall|i: int, j: int| 0 <= i < after.len() && 0 <= j < after.len() implies (
    #[trigger] after[i]).active <= (#[trigger] after[j]).active + 1 by {
        assert(before[i].active <= before[j].active + 1);
        assert(before[c].is_healthy && before[j].is_healthy);
    }
}

/// Connections are spread evenly: after `k` connections over distinct, fresh and healthy
/// backends, each of the `n` backends has `k / n` of them or one more, and together they
/// have all of them.
pub proof fn connections_are_spread_evenly(
    addresses: Seq<Seq<char>>,
    tables: Seq<Seq<BackendView>>,
    k: int,
)
    requires
        addresses.no_duplicates(),
        0 < addresses.len() <= u64::MAX,
        0 <= k < tables.len(),
        k <= usize::MAX,
        tables[0] == reloaded(Seq::empty(), addresses, 0),
        is_filling(tables),
    ensures
        tables[k].len() == addresses.len(),
        total(tables[k]) == k,
        forall|i: int|
            0 <= i < addresses.len() ==> k / (addresses.len() as int) <= (
            #[trigger] tables[k][i]).active <= k / (addresses.len() as int) + 1,
{
    filling_stays_level(addresses, tables, k);
    let table = tables[k];
    let n = addresses.len() as int;
    assert(addresses_of(table).len() == n);
    assert forall|i: int| 0 <= i < n implies k / n <= (#[trigger] table[i]).active <= k / n
        + 1 by {
        let a = table[i].active as int;
        let others = table.remove(i);
        total_without(table, i);
        assert forall|j: int| 0 <= j < others.len() implies a - 1 <= (#[trigger] others[j]).active
            <= a + 1 by {
            let m = if j < i { j } else { j + 1 };
            assert(others[j] == table[m]);
            assert(table[m].active <= table[i].active + 1);
            assert(table[i].active <= table[m].active + 1);
        }
        total_between(others, a - 1, a + 1);
        assert(k / n <= a <= k / n + 1) by (nonlinear_arith)
            requires
                n > 0,
                (n - 1) * (a - 1) <= k - a <= (n - 1) * (a + 1),
        ;
    }
}

proof fn filling_stays_level(
    addresses: Seq<Seq<char>>,
    tables: Seq<Seq<BackendView>>,
    k: int,
)
    requires
        addresses.no_duplicates(),
        addresses.len() <= u64::MAX,
        0 <= k < tables.len(),
        k <= usize::MAX,
        tables[0] == reloaded(Seq::empty(), addresses, 0),
        is_filling(tables),
    ensures
        counted(tables[k], addresses.len() as u64),
        addresses_of(tables[k]) == addresses,
        forall|i: int| 0 <= i < tables[k].len() ==> (#[trigger] tables[k][i]).is_healthy,
        forall|i: int, j: int|
            0 <= i < tables[k].len() && 0 <= j < tables[k].len() ==> (
            #[trigger] tables[k][i]).active <= (#[trigger] tables[k][j]).active + 1,
        total(tables[k]) == k,
    decreases k,
{
    if k == 0 {
        none_listed(addresses, addresses.len() as int);
        reload_keeps_the_count(Seq::empty(), addresses, 0);
        reload_lists_the_addresses(Seq::empty(), addresses, 0);
        assert forall|i: int| 0 <= i < tables[0].len() implies (
        #[trigger] tables[0][i]).is_healthy && tables[0][i].active == 0 by {
            reload_keeps_known_backends(Seq::empty(), addresses, 0, i);
        }
        total_between(tables[0], 0, 0);
    } else {
        filling_stays_level(addresses, tables, k - 1);
        assert(is_routed(tables[k - 1], tables[k - 1 + 1]));
        routing_stays_level(tables[k - 1], addresses.len() as u64, tables[k]);
    }
}

/// There is one choice at most.
pub proof fn choice_is_unique(table: Seq<BackendView>, i: int, j: int)
    requires
        is_choice(table, i),
        is_choice(table, j),
    ensures
        i == j,
{
    assert(table[i].is_healthy && table[j].is_healthy);
}

/// A backend that a probe did not reach is out of rotation, and one that a probe
/// reached is healthy, if no address stands twice.
pub proof fn probe_decides_rotation(table: Seq<BackendView>, address: Seq<char>, alive: bool, i: int)
    requires
        addresses_of(table).no_duplicates(),
        0 <= i < table.len(),
        table[i].address == address,
    ensures
        probed(table, address, alive)[i].is_healthy == alive,
        !alive ==> !is_choice(probed(table, address, alive), i),
        forall|j: int|
            0 <= j < table.len() && j != i ==> #[trigger] probed(table, address, alive)[j]
                == table[j],
{
    place_is_first(table, address);
    let p = place(table, address);
    if p < i {
        assert(addresses_of(table)[p] != addresses_of(table)[i]);
    } else if i < p {
        assert(table[i].address != address);
    }
}

/// A connection adds one to the count of its backend while it lasts, and takes one from it
/// when it ends, as far as the count has room; the address, the health and the counter
/// stay.
pub proof fn connection_counts_for_one(table: Seq<BackendView>, i: int)
    requires
        0 <= i < table.len(),
    ensures
        acquired(table, table[i].counter).len() == table.len(),
        released(table, table[i].counter).len() == table.len(),
        table[i].active < usize::MAX ==> acquired(table, table[i].counter)[i] == (BackendView {
            active: (table[i].active + 1) as usize,
            ..table[i]
        }),
        table[i].active > 0 ==> released(table, table[i].counter)[i] == (BackendView {
            active: (table[i].active - 1) as usize,
            ..table[i]
        }),
{
}

/// The choice is a healthy backend; no healthy one has fewer connections, and the healthy
/// ones before it have more.
pub proof fn choice_has_the_fewest_connections(table: Seq<BackendView>, i: int, j: int)
    requires
        is_choice(table, i),
        0 <= j < table.len(),
        table[j].is_healthy,
    ensures
        0 <= i < table.len(),
        table[i].is_healthy,
        !(table[j].active < table[i].active),
        j < i ==> table[j].active > table[i].active,
{
}

/// There is a choice whenever a backend is healthy.
pub proof fn healthy_backend_makes_a_choice(table: Seq<BackendView>, j: int) -> (i: int)
    requires
        0 <= j < table.len(),
        table[j].is_healthy,
    ensures
        is_choice(table, i),
    decreases table.len(),
{
    let init = table.drop_last();
    let n = table.len() - 1;
    if exists|k: int| 0 <= k < init.len() && (#[trigger] init[k]).is_healthy {
        let k = choose|k: int| 0 <= k < init.len() && (#[trigger] init[k]).is_healthy;
        let b = healthy_backend_makes_a_choice(init, k);
        let best = if table[n].is_healthy && table[n].active < table[b].active {
            n
        } else {
            b
        };
        assert forall|m: int| 0 <= m < table.len() && (
        #[trigger] table[m]).is_healthy implies table[best].active <= table[m].active && (m < best
            ==> table[best].active < table[m].active) by {
            if m < n {
                assert(init[m] == table[m]);
                assert(init[b] == table[b]);
                assert(init[b].active <= init[m].active);
            }
        }
        best
    } else {
        if j < n {
            assert(init[j].is_healthy);
        }
        assert forall|m: int| 0 <= m < table.len() && (
        #[trigger] table[m]).is_healthy implies m == n by {
            if m < n {
                assert(init[m].is_healthy);
            }
        }
        n
    }
}

/// A probe reports a change exactly if it changes the table: a backend that is back where
/// the probe reached one that was dead, and one that went down where it did not reach one
/// that was healthy.
pub proof fn probe_reports_what_it_changes(table: Seq<BackendView>, address: Seq<char>, alive: bool)
    ensures
        change(table, address, alive) is Some <==> probed(table, address, alive) != table,
        change(table, address, alive) == Some(Change::BackOnline) ==> alive,
        change(table, address, alive) == Some(Change::WentDown) ==> !alive,
        probed(table, address, alive).len() == table.len(),
{
    place_is_first(table, address);
    let p = place(table, address);
    if p < table.len() {
        let after = probed(table, address, alive);
        assert(after[p].is_healthy == alive);
        if table[p].is_healthy == alive {
            assert(after =~= table);
        }
    }
}

/// A new table holds the addresses it was given, each healthy and idle, under counters of
/// their own.
pub proof fn new_table_is_healthy_and_idle(addresses: Seq<Seq<char>>, i: int, j: int)
    requires
        0 <= i < addresses.len() <= u64::MAX,
        0 <= j < addresses.len(),
    ensures
        ({
            let table = reloaded(Seq::empty(), addresses, 0);
            &&& table.len() == addresses.len()
            &&& table[i].address == addresses[i]
            &&& table[i].is_healthy
            &&& table[i].active == 0
            &&& i != j ==> table[i].counter != table[j].counter
        }),
{
    none_listed(addresses, i);
    none_listed(addresses, j);
}

/// A fresh backend of a reload gets a counter that has not been handed out.
pub proof fn fresh_backend_gets_a_fresh_counter(
    table: Seq<BackendView>,
    addresses: Seq<Seq<char>>,
    next: u64,
    i: int,
)
    requires
        0 <= i < addresses.len(),
        next + addresses.len() <= u64::MAX,
        !listed(table, addresses[i]),
    ensures
        next <= reloaded(table, addresses, next)[i].counter,
        reloaded(table, addresses, next)[i].counter < next + newcomers(table, addresses),
{
    newcomers_grow(table, addresses, i, addresses.len() as int);
    assert(addresses.take(addresses.len() as int) =~= addresses);
}

/// What routing leaves: the connection goes to a healthy backend, where there is one; no
/// healthy backend has fewer connections, and those before it have more. It counts for one
/// there, and nothing else has changed.
pub proof fn connection_goes_to_the_least_loaded(
    balancer: &mut LeastConnections,
    routed: Option<(String, ConnectionTracker)>,
    j: int,
)
    requires
        call_ensures(LeastConnections::next_target, (balancer,), routed),
        0 <= j < old(balancer)@.len(),
    ensures
        final(balancer)@.len() == old(balancer)@.len(),
        final(balancer)@[j].address == old(balancer)@[j].address,
        final(balancer)@[j].is_healthy == old(balancer)@[j].is_healthy,
        final(balancer)@[j].counter == old(balancer)@[j].counter,
        old(balancer)@[j].is_healthy ==> routed is Some,
        routed is None ==> final(balancer)@ == old(balancer)@,
        routed matches Some((address, tracker)) ==> {
            &&& tracker.target() == address@
            &&& old(balancer)@[j].counter != tracker.counter() ==> final(balancer)@[j]
                == old(balancer)@[j]
            &&& exists|i: int|
                0 <= i < old(balancer)@.len() && (#[trigger] old(balancer)@[i]).is_healthy
                    && old(balancer)@[i].address == address@ && old(balancer)@[i].counter
                    == tracker.counter() && (old(balancer)@[j].is_healthy
                    ==> old(balancer)@[i].active <= old(balancer)@[j].active && (j < i
                    ==> old(balancer)@[i].active < old(balancer)@[j].active)) && (
                old(balancer)@[i].active < usize::MAX ==> final(balancer)@[i].active
                    == old(balancer)@[i].active + 1)
        },
{
    if let Some((address, tracker)) = routed {
        let i = choose|i: int| #[trigger]
            is_choice(old(balancer)@, i) && address@ == old(balancer)@[i].address
                && tracker.counter() == old(balancer)@[i].counter;
        assert(old(balancer)@[i].is_healthy);
    }
}

/// What the end of a connection leaves: it counts for one less under its counter, and
/// nothing else has changed.
pub proof fn ended_connection_is_not_counted(
    balancer: &mut LeastConnections,
    tracker: ConnectionTracker,
    j: int,
)
    requires
        call_ensures(LeastConnections::release, (balancer, tracker), ()),
        0 <= j < old(balancer)@.len(),
    ensures
        final(balancer)@.len() == old(balancer)@.len(),
        old(balancer)@[j].counter != tracker.counter() ==> final(balancer)@[j]
            == old(balancer)@[j],
        old(balancer)@[j].counter == tracker.counter() && old(balancer)@[j].active > 0
            ==> final(balancer)@[j] == (BackendView {
            active: (old(balancer)@[j].active - 1) as usize,
            ..old(balancer)@[j]
        }),
{
}

/// What a probe leaves: the first backend with the address is healthy exactly if it
/// answered, and a change is reported as what it is; nothing else has changed.
pub proof fn answer_decides_health(
    balancer: &mut LeastConnections,
    address: String,
    is_alive: bool,
    reported: Option<Change>,
    j: int,
)
    requires
        call_ensures(LeastConnections::record_probe, (balancer, &address, is_alive), reported),
        0 <= j < old(balancer)@.len(),
        forall|k: int| 0 <= k < j ==> (#[trigger] old(balancer)@[k]).address != address@,
    ensures
        final(balancer)@.len() == old(balancer)@.len(),
        old(balancer)@[j].address != address@ ==> final(balancer)@[j] == old(balancer)@[j],
        old(balancer)@[j].address == address@ ==> {
            &&& final(balancer)@[j] == (BackendView { is_healthy: is_alive, ..old(balancer)@[j] })
            &&& reported == if old(balancer)@[j].is_healthy == is_alive {
                None
            } else if is_alive {
                Some(Change::BackOnline)
            } else {
                Some(Change::WentDown)
            }
        },
{
    place_is_first(old(balancer)@, address@);
    if old(balancer)@[j].address == address@ {
        place_is(old(balancer)@, address@, j);
    }
}

/// What a new list leaves: the addresses of the list, in its order; a backend that was
/// there before stays as it is, and any other is healthy, idle and counted anew.
pub proof fn table_is_that_of_the_list(
    balancer: &mut LeastConnections,
    addresses: Vec<String>,
    i: int,
    k: int,
)
    requires
        call_ensures(LeastConnections::update_backends, (balancer, addresses), ()),
        old(balancer).next() + addresses@.len() <= u64::MAX,
        0 <= i < addresses@.len(),
        0 <= k <= old(balancer)@.len(),
        forall|m: int| 0 <= m < k ==> (#[trigger] old(balancer)@[m]).address != addresses@[i]@,
    ensures
        final(balancer)@.len() == addresses@.len(),
        final(balancer)@[i].address == addresses@[i]@,
        k < old(balancer)@.len() && old(balancer)@[k].address == addresses@[i]@
            ==> final(balancer)@[i] == old(balancer)@[k],
        k == old(balancer)@.len() ==> final(balancer)@[i].is_healthy && final(
            balancer)@[i].active == 0 && final(balancer)@[i].counter >= old(balancer).next(),
{
    let table = old(balancer)@;
    let list = text::texts(addresses@);
    assert(list[i] == addresses@[i]@);
    place_is_first(table, list[i]);
    newcomers_grow(table, list, i, i);
    if k == table.len() || table[k].address == list[i] {
        place_is(table, list[i], k);
    }
}

/// The addresses to probe are those of the table, in its order.
pub proof fn every_backend_is_probed(balancer: LeastConnections, addresses: Vec<String>, i: int)
    requires
        call_ensures(LeastConnections::addresses, (&balancer,), addresses),
        0 <= i < balancer@.len(),
    ensures
        addresses@.len() == balancer@.len(),
        addresses@[i]@ == balancer@[i].address,
{
    assert(text::texts(addresses@).len() == addresses@.len());
    assert(text::texts(addresses@)[i] == addresses@[i]@);
}

/// A new table holds the addresses it is given, in their order, each healthy and idle.
pub proof fn table_begins_healthy_and_idle(
    addresses: Vec<String>,
    balancer: LeastConnections,
    i: int,
)
    requires
        call_ensures(LeastConnections::new, (addresses,), balancer),
        0 <= i < addresses@.len(),
        addresses@.len() <= u64::MAX,
    ensures
        balancer@.len() == addresses@.len(),
        balancer@[i].address == addresses@[i]@,
        balancer@[i].is_healthy,
        balancer@[i].active == 0,
{
    let list = text::texts(addresses@);
    assert(list[i] == addresses@[i]@);
    new_table_is_healthy_and_idle(list, i, i);
}

} // verus!
