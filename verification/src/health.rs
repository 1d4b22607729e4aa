//! The health of the backends, and what a probe of one does to it.

use crate::addr::SocketAddr;
use crate::lists;
use vstd::prelude::*;
use vstd::string::StringExecFns;

verus! {

/// How often the backends are probed, in seconds.
pub const PROBE_INTERVAL_SECS: u64 = 5;

/// How long a probe may take, in seconds.
pub const PROBE_TIMEOUT_SECS: u64 = 2;

/// The operational state of a backend.
#[derive(Clone, Copy, Debug, PartialEq, Eq, Structural)]
pub enum HealthStatus {
    /// The backend accepts connections and answers with success.
    Healthy,
    /// The backend is unresponsive, times out or answers with an error.
    Dead,
}

/// A backend address together with its text form.
pub struct Endpoint {
    /// The address.
    pub addr: SocketAddr,
    /// The address as text.
    pub text: String,
}

/// What the registry holds of a backend.
struct Backend {
    addr: SocketAddr,
    text: String,
    status: HealthStatus,
}

/// What the registry knows of a backend.
pub struct BackendView {
    /// The address.
    pub addr: SocketAddr,
    /// The address as text.
    pub text: Seq<char>,
    /// Its health.
    pub status: HealthStatus,
}

/// A change of health that a probe brought.
#[derive(Clone, Copy, Debug, PartialEq, Eq, Structural)]
pub enum HealthChange {
    /// The backend is back.
    Recovered,
    /// The backend was healthy and failed the probe.
    Failed,
}

/// How a backend is probed.
pub enum Probe {
    /// By a GET request for a URL.
    Http(String),
    /// By opening a TCP connection.
    Tcp,
}

/// The addresses and texts in a list of endpoints.
pub open spec fn endpoint_views(list: Seq<Endpoint>) -> Seq<(SocketAddr, Seq<char>)> {
    Seq::new(list.len(), |i: int| (list[i].addr, list[i].text@))
}

/// Whether `addr` is among the backends.
pub open spec fn knows(backends: Seq<BackendView>, addr: SocketAddr) -> bool {
    exists|i: int| 0 <= i < backends.len() && (#[trigger] backends[i]).addr == addr
}

/// No address stands for two backends.
pub open spec fn distinct(backends: Seq<BackendView>) -> bool {
    forall|i: int, j: int|
        0 <= i < j < backends.len() ==> (#[trigger] backends[i]).addr != (
        #[trigger] backends[j]).addr
}

/// The backends after those of a list of addresses and texts have been registered
/// beside `backends`: known ones stay as they are, new ones are appended and healthy.
/// An address counts where it first occurs.
pub open spec fn registered_into(
    backends: Seq<BackendView>,
    list: Seq<(SocketAddr, Seq<char>)>,
) -> Seq<BackendView>
    decreases list.len(),
{
    if list.len() == 0 {
        backends
    } else {
        let before = registered_into(backends, list.drop_last());
        if knows(before, list.last().0) {
            before
        } else {
            before.push(
                BackendView {
                    addr: list.last().0,
                    text: list.last().1,
                    status: HealthStatus::Healthy,
                },
            )
        }
    }
}

/// The backends that a list of addresses and texts registers, each healthy.
pub open spec fn registered(list: Seq<(SocketAddr, Seq<char>)>) -> Seq<BackendView> {
    registered_into(Seq::empty(), list)
}

/// The health of `addr`, where it is known.
pub open spec fn status_in(backends: Seq<BackendView>, addr: SocketAddr) -> Option<HealthStatus>
    decreases backends.len(),
{
    if backends.len() == 0 {
        None
    } else if backends.first().addr == addr {
        Some(backends.first().status)
    } else {
        status_in(backends.drop_first(), addr)
    }
}

/// The backends after `addr`, where it is known, has been given a health.
pub open spec fn with_status(
    backends: Seq<BackendView>,
    addr: SocketAddr,
    status: HealthStatus,
) -> Seq<BackendView> {
    Seq::new(
        backends.len(),
        |i: int|
            if backends[i].addr == addr {
                BackendView { status, ..backends[i] }
            } else {
                backends[i]
            },
    )
}

/// The healthy backends, in the order of their registration.
pub open spec fn healthy(backends: Seq<BackendView>) -> Seq<BackendView> {
    backends.filter(|b: BackendView| b.status == HealthStatus::Healthy)
}

/// The addresses of `backends`.
pub open spec fn addrs(backends: Seq<BackendView>) -> Seq<SocketAddr> {
    Seq::new(backends.len(), |i: int| backends[i].addr)
}

/// The addresses of `backends` with their texts.
pub open spec fn named(backends: Seq<BackendView>) -> Seq<(SocketAddr, Seq<char>)> {
    Seq::new(backends.len(), |i: int| (backends[i].addr, backends[i].text))
}

/// The health that the outcome of a probe stands for.
pub open spec fn probed_status(is_healthy: bool) -> HealthStatus {
    if is_healthy {
        HealthStatus::Healthy
    } else {
        HealthStatus::Dead
    }
}

/// The change that the outcome of a probe brings to a backend of a given health.
pub open spec fn probe_change(
    current: Option<HealthStatus>,
    is_healthy: bool,
) -> Option<HealthChange> {
    if is_healthy && current != Some(HealthStatus::Healthy) {
        Some(HealthChange::Recovered)
    } else if !is_healthy && current == Some(HealthStatus::Healthy) {
        Some(HealthChange::Failed)
    } else {
        None
    }
}

/// The URL at which the backend `text` is probed.
pub open spec fn probe_url(text: Seq<char>) -> Seq<char> {
    "http://"@ + text + "/"@
}

/// Whether an answer with this status, or no answer, shows an HTTP backend to be
/// healthy: the status is one of success.
pub fn http_probe_succeeded(status: Option<u16>) -> (r: bool)
    ensures
        r == (status matches Some(code) && 200 <= code < 300),
{
    match status {
        Some(code) => 200 <= code && code < 300,
        None => false,
    }
}

/// How the backend `addr`, in text `text`, is probed: by HTTP if it is one of the
/// HTTP targets, and by TCP otherwise.
pub fn probe_for(http_targets: &Vec<SocketAddr>, addr: SocketAddr, text: &str) -> (r: Probe)
    ensures
        match r {
            Probe::Http(url) => http_targets@.contains(addr) && url@ == probe_url(text@),
            Probe::Tcp => !http_targets@.contains(addr),
        },
{
    let mut i: usize = 0;
    while i < http_targets.len()
        invariant
            i <= http_targets@.len(),
            forall|j: int| 0 <= j < i ==> http_targets@[j] != addr,
        decreases http_targets@.len() - i,
    {
        if http_targets[i] == addr {
            let mut url = "http://".to_owned();
            url.append(text);
            url.append("/");
            assert(http_targets@.contains(addr));
            return Probe::Http(url);
        }
        i = i + 1;
    }
    Probe::Tcp
}

/// The backends and their health.
pub struct HealthRegistry {
    backends: Vec<Backend>,
}

impl View for HealthRegistry {
    type V = Seq<BackendView>;

    closed spec fn view(&self) -> Seq<BackendView> {
        Seq::new(
            self.backends@.len(),
            |i: int|
                BackendView {
                    addr: self.backends@[i].addr,
                    text: self.backends@[i].text@,
                    status: self.backends@[i].status,
                },
        )
    }
}

impl HealthRegistry {
    /// No address stands for two backends.
    pub open spec fn wf(&self) -> bool {
        distinct(self@)
    }

    /// Registers the backends of a list, all healthy.
    pub fn new(list: &Vec<Endpoint>) -> (r: Self)
        ensures
            r.wf(),
            r@ == registered(endpoint_views(list@)),
    {
        let mut r = HealthRegistry { backends: Vec::new() };
        assert(r@ =~= Seq::empty());
        r.register(list);
        r
    }

    /// Registers the backends of a list beside those that are known. Known backends
    /// keep their health; new ones are healthy.
    pub fn register(&mut self, list: &Vec<Endpoint>)
        requires
            old(self).wf(),
        ensures
            final(self).wf(),
            final(self)@ == registered_into(old(self)@, endpoint_views(list@)),
    {
        let ghost views = endpoint_views(list@);
        let mut i: usize = 0;
        proof {
            assert(views.take(0) =~= Seq::empty());
        }
        while i < list.len()
            invariant
                views == endpoint_views(list@),
                i <= list@.len(),
                self.wf(),
                self@ == registered_into(old(self)@, views.take(i as int)),
            decreases list@.len() - i,
        {
            proof {
                assert(views.take(i + 1).drop_last() =~= views.take(i as int));
            }
            let addr = list[i].addr;
            if self.find(addr).is_none() {
                let ghost before = self@;
                self.backends.push(
                    Backend {
                        addr,
                        text: list[i].text.clone(),
                        status: HealthStatus::Healthy,
                    },
                );
                proof {
                    assert(self@ =~= before.push(
                        BackendView {
                            addr,
                            text: list@[i as int].text@,
                            status: HealthStatus::Healthy,
                        },
                    ));
                }
            }
            i = i + 1;
        }
        proof {
            assert(views.take(i as int) =~= views);
        }
    }

    fn find(&self, addr: SocketAddr) -> (r: Option<usize>)
        ensures
            match r {
                Some(i) => {
                    &&& i < self@.len()
                    &&& self.backends@.len() == self@.len()
                    &&& self@[i as int].addr == addr
                    &&& status_in(self@, addr) == Some(self@[i as int].status)
                },
                None => !knows(self@, addr) && status_in(self@, addr) is None,
            },
    {
        let mut i: usize = 0;
        proof {
            assert(self@.skip(0) =~= self@);
        }
        while i < self.backends.len()
            invariant
                i <= self.backends@.len(),
                self.backends@.len() == self@.len(),
                forall|j: int| 0 <= j < i ==> (#[trigger] self@[j]).addr != addr,
                status_in(self@, addr) == status_in(self@.skip(i as int), addr),
            decreases self.backends@.len() - i,
        {
            if self.backends[i].addr == addr {
                return Some(i);
            }
            proof {
                assert(self@.skip(i as int).drop_first() =~= self@.skip(i + 1));
            }
            i = i + 1;
        }
        None
    }

    /// Gives a backend a health; an unknown address is passed over.
    pub fn set_status(&mut self, addr: SocketAddr, status: HealthStatus)
        requires
            old(self).wf(),
        ensures
            final(self).wf(),
            final(self)@ == with_status(old(self)@, addr, status),
    {
        match self.find(addr) {
            Some(i) => {
                self.backends[i].status = status;
                proof {
                    assert forall|j: int| 0 <= j < self@.len() && j != i implies old(
                        self,
                    )@[j].addr != addr by {
                        assert(old(self)@[j].addr != old(self)@[i as int].addr);
                    }
                    assert(self@ =~= with_status(old(self)@, addr, status));
                }
            },
            None => {
                assert(self@ =~= with_status(self@, addr, status));
            },
        }
    }

    /// The health of a backend; `None` for an unknown address.
    pub fn get_status(&self, addr: &SocketAddr) -> (r: Option<HealthStatus>)
        ensures
            r == status_in(self@, *addr),
    {
        match self.find(*addr) {
            Some(i) => Some(self.backends[i].status),
            None => None,
        }
    }

    /// The addresses of the healthy backends.
    pub fn get_healthy_backends(&self) -> (r: Vec<SocketAddr>)
        ensures
            r@ == addrs(healthy(self@)),
    {
        let mut r: Vec<SocketAddr> = Vec::new();
        let mut i: usize = 0;
        proof {
            assert(self@.take(0) =~= Seq::empty());
            reveal(Seq::filter);
            assert(r@ =~= addrs(healthy(self@.take(0))));
        }
        while i < self.backends.len()
            invariant
                i <= self.backends@.len(),
                self.backends@.len() == self@.len(),
                r@ == addrs(healthy(self@.take(i as int))),
            decreases self.backends@.len() - i,
        {
            let ghost before = healthy(self@.take(i as int));
            proof {
                healthy_step(self@, i as int);
            }
            if self.backends[i].status == HealthStatus::Healthy {
                r.push(self.backends[i].addr);
                proof {
                    assert(r@ =~= addrs(before.push(self@[i as int])));
                }
            }
            i = i + 1;
        }
        proof {
            assert(self@.take(i as int) =~= self@);
        }
        r
    }

    /// The healthy backends with their texts.
    pub fn healthy_endpoints(&self) -> (r: Vec<Endpoint>)
        ensures
            endpoint_views(r@) == named(healthy(self@)),
    {
        let mut r: Vec<Endpoint> = Vec::new();
        let mut i: usize = 0;
        proof {
            assert(self@.take(0) =~= Seq::empty());
            reveal(Seq::filter);
            assert(endpoint_views(r@) =~= named(healthy(self@.take(0))));
        }
        while i < self.backends.len()
            invariant
                i <= self.backends@.len(),
                self.backends@.len() == self@.len(),
                endpoint_views(r@) == named(healthy(self@.take(i as int))),
            decreases self.backends@.len() - i,
        {
            let ghost before = healthy(self@.take(i as int));
            let ghost listed = r@;
            proof {
                healthy_step(self@, i as int);
            }
            if self.backends[i].status == HealthStatus::Healthy {
                r.push(
                    Endpoint { addr: self.backends[i].addr, text: self.backends[i].text.clone() },
                );
                proof {
                    assert(endpoint_views(r@) =~= endpoint_views(listed).push(
                        (self@[i as int].addr, self@[i as int].text),
                    ));
                    assert(endpoint_views(r@) =~= named(before.push(self@[i as int])));
                }
            }
            i = i + 1;
        }
        proof {
            assert(self@.take(i as int) =~= self@);
        }
        r
    }

    /// The addresses of all backends.
    pub fn get_all_backends(&self) -> (r: Vec<SocketAddr>)
        ensures
            r@ == addrs(self@),
    {
        let mut r: Vec<SocketAddr> = Vec::new();
        let mut i: usize = 0;
        while i < self.backends.len()
            invariant
                i <= self.backends@.len(),
                r@ == addrs(self@).take(i as int),
            decreases self.backends@.len() - i,
        {
            r.push(self.backends[i].addr);
            i = i + 1;
            proof {
                assert(addrs(self@).take(i as int) =~= addrs(self@).take(i - 1).push(
                    addrs(self@)[i - 1],
                ));
            }
        }
        proof {
            assert(addrs(self@).take(i as int) =~= addrs(self@));
        }
        r
    }

    /// The number of backends.
    pub fn len(&self) -> (r: usize)
        ensures
            r == self@.len(),
    {
        self.backends.len()
    }

    /// The text of the backend at a place in the order of registration.
    pub fn text_at(&self, i: usize) -> (r: String)
        requires
            i < self@.len(),
        ensures
            r@ == self@[i as int].text,
    {
        self.backends[i].text.clone()
    }

    /// The health of the backend at a place in the order of registration.
    pub fn status_at(&self, i: usize) -> (r: HealthStatus)
        requires
            i < self@.len(),
        ensures
            r == self@[i as int].status,
    {
        self.backends[i].status
    }

    /// Records the outcome of a probe, and says whether it changed the backend's
    /// health.
    pub fn record_probe(&mut self, addr: SocketAddr, is_healthy: bool) -> (r: Option<HealthChange>)
        requires
            old(self).wf(),
        ensures
            final(self).wf(),
            final(self)@ == with_status(old(self)@, addr, probed_status(is_healthy)),
            r == probe_change(status_in(old(self)@, addr), is_healthy),
    {
        let currently_healthy = match self.get_status(&addr) {
            Some(HealthStatus::Healthy) => true,
            _ => false,
        };
        if is_healthy {
            self.set_status(addr, HealthStatus::Healthy);
            if currently_healthy {
                None
            } else {
                Some(HealthChange::Recovered)
            }
        } else {
            self.set_status(addr, HealthStatus::Dead);
            if currently_healthy {
                Some(HealthChange::Failed)
            } else {
                None
            }
        }
    }
}

proof fn healthy_step(backends: Seq<BackendView>, i: int)
    requires
        0 <= i < backends.len(),
    ensures
        backends[i].status == HealthStatus::Healthy ==> healthy(backends.take(i + 1)) == healthy(
            backends.take(i),
        ).push(backends[i]),
        backends[i].status != HealthStatus::Healthy ==> healthy(backends.take(i + 1)) == healthy(
            backends.take(i),
        ),
{
    reveal(Seq::filter);
    assert(backends.take(i + 1).drop_last() =~= backends.take(i));
}

/// The healthy backends are those of the backends whose health is good.
pub proof fn healthy_are_the_healthy(backends: Seq<BackendView>, addr: SocketAddr)
    ensures
        addrs(healthy(backends)).contains(addr) <==> exists|i: int|
            0 <= i < backends.len() && (#[trigger] backends[i]).addr == addr && backends[i].status
                == HealthStatus::Healthy,
    decreases backends.len(),
{
    reveal(Seq::filter);
    if backends.len() > 0 {
        let init = backends.drop_last();
        healthy_are_the_healthy(init, addr);
        let h = healthy(init);
        if backends.last().status == HealthStatus::Healthy {
            assert(healthy(backends) == h.push(backends.last()));
            assert(addrs(healthy(backends)) =~= addrs(h).push(backends.last().addr));
            if addrs(h).contains(addr) {
                let k = choose|k: int| 0 <= k < addrs(h).len() && addrs(h)[k] == addr;
                assert(addrs(healthy(backends))[k] == addr);
            }
            if backends.last().addr == addr {
                assert(addrs(healthy(backends))[h.len() as int] == addr);
            }
        } else {
            assert(healthy(backends) == h);
        }
        assert forall|i: int| 0 <= i < init.len() implies backends[i] == #[trigger] init[i] by {}
        if exists|i: int|
            0 <= i < backends.len() && (#[trigger] backends[i]).addr == addr && backends[i].status
                == HealthStatus::Healthy {
            let i = choose|i: int|
                0 <= i < backends.len() && (#[trigger] backends[i]).addr == addr
                    && backends[i].status == HealthStatus::Healthy;
            if i < init.len() {
                assert(init[i].addr == addr);
            }
        }
        if addrs(healthy(backends)).contains(addr) {
            if addrs(h).contains(addr) {
                let i = choose|i: int|
                    0 <= i < init.len() && (#[trigger] init[i]).addr == addr && init[i].status
                        == HealthStatus::Healthy;
                assert(backends[i].addr == addr);
            } else {
                assert(backends[backends.len() - 1].addr == addr);
            }
        }
    }
}

/// A backend marked dead is out of the rotation.
pub proof fn dead_backend_leaves_rotation(backends: Seq<BackendView>, addr: SocketAddr)
    ensures
        !addrs(healthy(with_status(backends, addr, HealthStatus::Dead))).contains(addr),
{
    healthy_are_the_healthy(with_status(backends, addr, HealthStatus::Dead), addr);
}

/// A known backend marked healthy is back in the rotation.
pub proof fn recovered_backend_returns(backends: Seq<BackendView>, addr: SocketAddr)
    requires
        knows(backends, addr),
    ensures
        addrs(healthy(with_status(backends, addr, HealthStatus::Healthy))).contains(addr),
{
    let after = with_status(backends, addr, HealthStatus::Healthy);
    healthy_are_the_healthy(after, addr);
    let i = choose|i: int| 0 <= i < backends.len() && (#[trigger] backends[i]).addr == addr;
    assert(after[i].addr == addr);
}

/// Giving one backend a health leaves the others as they are, and makes no
/// address known.
pub proof fn status_touches_its_backend_only(
    backends: Seq<BackendView>,
    addr: SocketAddr,
    status: HealthStatus,
    other: SocketAddr,
)
    requires
        other != addr,
    ensures
        knows(with_status(backends, addr, status), other) == knows(backends, other),
        knows(with_status(backends, addr, status), addr) == knows(backends, addr),
        status_in(with_status(backends, addr, status), other) == status_in(backends, other),
    decreases backends.len(),
{
    let after = with_status(backends, addr, status);
    if backends.len() > 0 {
        let rest = backends.drop_first();
        status_touches_its_backend_only(rest, addr, status, other);
        assert(after.drop_first() =~= with_status(rest, addr, status));
    }
    assert forall|a: SocketAddr| knows(after, a) == knows(backends, a) by {
        if knows(backends, a) {
            let i = choose|i: int| 0 <= i < backends.len() && (#[trigger] backends[i]).addr == a;
            assert(after[i].addr == a);
        }
        if knows(after, a) {
            let i = choose|i: int| 0 <= i < after.len() && (#[trigger] after[i]).addr == a;
            assert(backends[i].addr == a);
        }
    }
}

/// What is set is what is read: a known backend has the health it was last given.
pub proof fn status_set_is_read(
    backends: Seq<BackendView>,
    addr: SocketAddr,
    status: HealthStatus,
)
    ensures
        status_in(with_status(backends, addr, status), addr) == (if knows(backends, addr) {
            Some(status)
        } else {
            None
        }),
    decreases backends.len(),
{
    let after = with_status(backends, addr, status);
    if backends.len() > 0 {
        let rest = backends.drop_first();
        status_set_is_read(rest, addr, status);
        assert(after.drop_first() =~= with_status(rest, addr, status));
        if backends.first().addr == addr {
            assert(backends[0].addr == addr);
        } else {
            if knows(rest, addr) {
                let i = choose|i: int| 0 <= i < rest.len() && (#[trigger] rest[i]).addr == addr;
                assert(backends[i + 1].addr == addr);
            }
            if knows(backends, addr) {
                let i = choose|i: int|
                    0 <= i < backends.len() && (#[trigger] backends[i]).addr == addr;
                assert(rest[i - 1].addr == addr);
            }
        }
    }
}

proof fn status_behind_a_new_one(backends: Seq<BackendView>, new: BackendView, addr: SocketAddr)
    requires
        knows(backends, addr),
    ensures
        status_in(backends.push(new), addr) == status_in(backends, addr),
    decreases backends.len(),
{
    if backends.first().addr != addr {
        let rest = backends.drop_first();
        let i = choose|i: int| 0 <= i < backends.len() && (#[trigger] backends[i]).addr == addr;
        assert(rest[i - 1].addr == addr);
        status_behind_a_new_one(rest, new, addr);
        assert(backends.push(new).drop_first() =~= rest.push(new));
    }
}

/// A registration leaves the known backends as they are, in their places and with
/// their health, and makes exactly the addresses of the list known beside them.
pub proof fn registration_keeps_known_backends(
    backends: Seq<BackendView>,
    list: Seq<(SocketAddr, Seq<char>)>,
    addr: SocketAddr,
)
    ensures
        registered_into(backends, list).len() >= backends.len(),
        registered_into(backends, list).take(backends.len() as int) == backends,
        knows(backends, addr) ==> status_in(registered_into(backends, list), addr) == status_in(
            backends,
            addr,
        ),
        knows(registered_into(backends, list), addr) <==> knows(backends, addr) || exists|i: int|
            0 <= i < list.len() && (#[trigger] list[i]).0 == addr,
    decreases list.len(),
{
    let all = registered_into(backends, list);
    if list.len() > 0 {
        let init = list.drop_last();
        registration_keeps_known_backends(backends, init, addr);
        let before = registered_into(backends, init);
        assert(all.take(backends.len() as int) =~= before.take(backends.len() as int));
        if knows(backends, addr) {
            let k = choose|k: int| 0 <= k < backends.len() && (#[trigger] backends[k]).addr == addr;
            assert(before.take(backends.len() as int)[k] == before[k]);
            assert(before[k].addr == addr);
            if all != before {
                status_behind_a_new_one(before, all.last(), addr);
            }
        }
        if exists|i: int| 0 <= i < list.len() && (#[trigger] list[i]).0 == addr {
            let i = choose|i: int| 0 <= i < list.len() && (#[trigger] list[i]).0 == addr;
            if i < init.len() {
                assert(init[i].0 == addr);
            } else if !knows(before, addr) {
                assert(all[before.len() as int].addr == addr);
            }
        }
        if knows(before, addr) {
            let k = choose|k: int| 0 <= k < before.len() && (#[trigger] before[k]).addr == addr;
            assert(all[k].addr == addr);
        }
        if knows(all, addr) {
            let k = choose|k: int| 0 <= k < all.len() && (#[trigger] all[k]).addr == addr;
            if k < before.len() {
                assert(before[k].addr == addr);
                if !knows(backends, addr) {
                    let i = choose|i: int| 0 <= i < init.len() && (#[trigger] init[i]).0 == addr;
                    assert(list[i].0 == addr);
                }
            } else {
                assert(list[list.len() - 1].0 == addr);
            }
        }
    } else {
        assert(all.take(backends.len() as int) =~= backends);
    }
}

/// A new backend of the list is registered as healthy, under its text. Entries of the
/// list with one address have one text.
pub proof fn new_backend_is_registered(
    backends: Seq<BackendView>,
    list: Seq<(SocketAddr, Seq<char>)>,
    i: int,
)
    requires
        0 <= i < list.len(),
        !knows(backends, list[i].0),
        forall|j: int|
            0 <= j < list.len() && (#[trigger] list[j]).0 == list[i].0 ==> list[j].1 == list[i].1,
    ensures
        exists|k: int|
            0 <= k < registered_into(backends, list).len() && #[trigger] registered_into(
                backends,
                list,
            )[k] == (BackendView {
                addr: list[i].0,
                text: list[i].1,
                status: HealthStatus::Healthy,
            }),
    decreases list.len(),
{
    let all = registered_into(backends, list);
    let init = list.drop_last();
    let before = registered_into(backends, init);
    let new = BackendView { addr: list[i].0, text: list[i].1, status: HealthStatus::Healthy };
    registration_keeps_known_backends(backends, init, list[i].0);
    if exists|j: int| 0 <= j < init.len() && (#[trigger] init[j]).0 == list[i].0 {
        let j = choose|j: int| 0 <= j < init.len() && (#[trigger] init[j]).0 == list[i].0;
        assert(list[j].1 == list[i].1);
        assert forall|m: int| 0 <= m < init.len() && (#[trigger] init[m]).0
            == init[j].0 implies init[m].1 == init[j].1 by {
            assert(list[m].1 == list[i].1);
        }
        new_backend_is_registered(backends, init, j);
        let k = choose|k: int| 0 <= k < before.len() && #[trigger] before[k] == new;
        assert(all[k] == new);
    } else {
        if i < init.len() {
            assert(init[i].0 == list[i].0);
        }
        assert(all[before.len() as int] == new);
    }
}

/// At the start the backends of the list, and no others, are known, and all of
/// them are in the rotation.
pub proof fn all_backends_start_healthy(list: Seq<(SocketAddr, Seq<char>)>, addr: SocketAddr)
    ensures
        knows(registered(list), addr) <==> exists|i: int|
            0 <= i < list.len() && (#[trigger] list[i]).0 == addr,
        addrs(healthy(registered(list))).contains(addr) <==> knows(registered(list), addr),
        healthy(registered(list)) == registered(list),
    decreases list.len(),
{
    reveal(Seq::filter);
    let all = registered(list);
    if list.len() > 0 {
        let init = list.drop_last();
        all_backends_start_healthy(init, addr);
        let before = registered(init);
        if !knows(before, list.last().0) {
            assert(all.drop_last() =~= before);
            assert(all.last().status == HealthStatus::Healthy);
        }
        if exists|i: int| 0 <= i < list.len() && (#[trigger] list[i]).0 == addr {
            let i = choose|i: int| 0 <= i < list.len() && (#[trigger] list[i]).0 == addr;
            if i < init.len() {
                assert(init[i].0 == addr);
                let k = choose|k: int| 0 <= k < before.len() && (#[trigger] before[k]).addr == addr;
                assert(all[k].addr == addr);
            } else if !knows(before, addr) {
                assert(all[before.len() as int].addr == addr);
            }
        }
        if knows(all, addr) {
            let k = choose|k: int| 0 <= k < all.len() && (#[trigger] all[k]).addr == addr;
            if k < before.len() {
                assert(before[k].addr == addr);
                let i = choose|i: int| 0 <= i < init.len() && (#[trigger] init[i]).0 == addr;
                assert(list[i].0 == addr);
            } else {
                assert(list[list.len() - 1].0 == addr);
            }
        }
    }
    if knows(all, addr) {
        let k = choose|k: int| 0 <= k < all.len() && (#[trigger] all[k]).addr == addr;
        assert(addrs(all)[k] == addr);
    }
    if addrs(all).contains(addr) {
        let k = choose|k: int| 0 <= k < addrs(all).len() && addrs(all)[k] == addr;
        assert(all[k].addr == addr);
    }
}

/// Giving a backend a health changes nothing else: the backends, their order, their
/// addresses and their texts stay, and so does the health of every other address.
pub proof fn status_changes_nothing_else(
    backends: Seq<BackendView>,
    addr: SocketAddr,
    status: HealthStatus,
    i: int,
)
    requires
        0 <= i < backends.len(),
    ensures
        with_status(backends, addr, status).len() == backends.len(),
        with_status(backends, addr, status)[i].addr == backends[i].addr,
        with_status(backends, addr, status)[i].text == backends[i].text,
        with_status(backends, addr, status)[i].status == if backends[i].addr == addr {
            status
        } else {
            backends[i].status
        },
{
}

/// The health of an address is that of the backend that has it.
pub proof fn status_is_that_of_the_backend(backends: Seq<BackendView>, i: int)
    requires
        distinct(backends),
        0 <= i < backends.len(),
    ensures
        status_in(backends, backends[i].addr) == Some(backends[i].status),
    decreases backends.len(),
{
    if i > 0 {
        let rest = backends.drop_first();
        assert(backends[0].addr != backends[i].addr);
        assert forall|a: int, b: int| 0 <= a < b < rest.len() implies (#[trigger] rest[a]).addr
            != (#[trigger] rest[b]).addr by {
            assert(backends[a + 1].addr != backends[b + 1].addr);
        }
        assert(rest[i - 1] == backends[i]);
        status_is_that_of_the_backend(rest, i - 1);
    }
}

/// A probe decides the health of a known backend: success makes it healthy and failure
/// dead, whatever it was; and a change is reported exactly if its health has changed, as a
/// recovery if it is healthy now and as a failure if it is dead.
pub proof fn probe_decides_health(
    backends: Seq<BackendView>,
    addr: SocketAddr,
    is_healthy: bool,
)
    requires
        knows(backends, addr),
    ensures
        ({
            let before = status_in(backends, addr);
            let after = status_in(
                with_status(backends, addr, probed_status(is_healthy)),
                addr,
            );
            &&& after == if is_healthy {
                Some(HealthStatus::Healthy)
            } else {
                Some(HealthStatus::Dead)
            }
            &&& probe_change(before, is_healthy) is Some <==> before != after
            &&& probe_change(before, is_healthy) == Some(HealthChange::Recovered) ==> after == Some(
                HealthStatus::Healthy,
            )
            &&& probe_change(before, is_healthy) == Some(HealthChange::Failed) ==> after == Some(
                HealthStatus::Dead,
            )
        }),
{
    status_set_is_read(backends, addr, probed_status(is_healthy));
    known_has_a_status(backends, addr);
    match status_in(backends, addr)->0 {
        HealthStatus::Healthy => {},
        HealthStatus::Dead => {},
    }
}

proof fn known_has_a_status(backends: Seq<BackendView>, addr: SocketAddr)
    requires
        knows(backends, addr),
    ensures
        status_in(backends, addr) is Some,
    decreases backends.len(),
{
    if backends.first().addr != addr {
        let i = choose|i: int| 0 <= i < backends.len() && (#[trigger] backends[i]).addr == addr;
        assert(backends.drop_first()[i - 1].addr == addr);
        known_has_a_status(backends.drop_first(), addr);
    }
}

/// A backend passes an HTTP probe exactly if it answers with a status from 200 to 299.
pub proof fn probe_passes_on_success_only(status: Option<u16>, passed: bool)
    requires
        call_ensures(http_probe_succeeded, (status,), passed),
    ensures
        status is None ==> !passed,
        status matches Some(code) ==> (passed <==> 199 < code && code < 300),
{
}

/// The HTTP targets, and no others, are probed by HTTP, at the root of their own address.
pub proof fn http_targets_are_probed_by_http(
    http_targets: Vec<SocketAddr>,
    addr: SocketAddr,
    text: &str,
    probe: Probe,
)
    requires
        call_ensures(probe_for, (&http_targets, addr, text), probe),
    ensures
        probe is Http <==> http_targets@.contains(addr),
        probe matches Probe::Http(url) ==> url@ == "http://"@ + text@ + "/"@,
{
}

/// The registry gives out what it holds: all addresses in the order of registration, the
/// healthy ones among them, and the health of each.
pub proof fn registry_gives_out_what_it_holds(
    registry: HealthRegistry,
    all: Vec<SocketAddr>,
    up: Vec<SocketAddr>,
    i: int,
)
    requires
        call_ensures(HealthRegistry::get_all_backends, (&registry,), all),
        call_ensures(HealthRegistry::get_healthy_backends, (&registry,), up),
        0 <= i < registry@.len(),
    ensures
        all@.len() == registry@.len(),
        all@[i] == registry@[i].addr,
        registry@[i].status == HealthStatus::Healthy ==> up@.contains(registry@[i].addr),
        registry.wf() && registry@[i].status == HealthStatus::Dead ==> !up@.contains(
            registry@[i].addr,
        ),
        up@.len() <= registry@.len(),
{
    healthy_are_the_healthy(registry@, registry@[i].addr);
    if registry.wf() && up@.contains(registry@[i].addr) {
        let k = choose|k: int|
            0 <= k < registry@.len() && (#[trigger] registry@[k]).addr == registry@[i].addr
                && registry@[k].status == HealthStatus::Healthy;
        if k < i {
            assert(registry@[k].addr != registry@[i].addr);
        } else if i < k {
            assert(registry@[i].addr != registry@[k].addr);
        }
    }
    registry@.lemma_filter_len(|b: BackendView| b.status == HealthStatus::Healthy);
}

/// What a probe leaves: a backend that passed is healthy and one that failed is dead; a
/// change of health is reported as what it is; and no other backend is touched.
pub proof fn probe_is_recorded(
    registry: &mut HealthRegistry,
    addr: SocketAddr,
    is_healthy: bool,
    change: Option<HealthChange>,
    i: int,
)
    requires
        call_ensures(HealthRegistry::record_probe, (registry, addr, is_healthy), change),
        old(registry).wf(),
        0 <= i < old(registry)@.len(),
    ensures
        final(registry)@.len() == old(registry)@.len(),
        final(registry)@[i].addr == old(registry)@[i].addr,
        final(registry)@[i].text == old(registry)@[i].text,
        old(registry)@[i].addr != addr ==> final(registry)@[i].status == old(registry)@[i].status,
        old(registry)@[i].addr == addr ==> {
            &&& is_healthy ==> final(registry)@[i].status == HealthStatus::Healthy
            &&& !is_healthy ==> final(registry)@[i].status == HealthStatus::Dead
            &&& change is None <==> final(registry)@[i].status == old(registry)@[i].status
            &&& change == Some(HealthChange::Recovered) ==> is_healthy
            &&& change == Some(HealthChange::Failed) ==> !is_healthy
        },
{
    status_is_that_of_the_backend(old(registry)@, i);
    match old(registry)@[i].status {
        HealthStatus::Healthy => {},
        HealthStatus::Dead => {},
    }
}

/// What setting a health leaves: the backend has it, and nothing else has changed.
pub proof fn health_is_set(
    registry: &mut HealthRegistry,
    addr: SocketAddr,
    status: HealthStatus,
    i: int,
)
    requires
        call_ensures(HealthRegistry::set_status, (registry, addr, status), ()),
        0 <= i < old(registry)@.len(),
    ensures
        final(registry)@.len() == old(registry)@.len(),
        final(registry)@[i].addr == old(registry)@[i].addr,
        final(registry)@[i].text == old(registry)@[i].text,
        old(registry)@[i].addr == addr ==> final(registry)@[i].status == status,
        old(registry)@[i].addr != addr ==> final(registry)@[i].status == old(registry)@[i].status,
{
}

/// What a registration leaves: the known backends in their places and with their health,
/// and every new address of the list behind them, healthy.
pub proof fn backends_are_registered(
    registry: &mut HealthRegistry,
    list: Vec<Endpoint>,
    i: int,
    k: int,
)
    requires
        call_ensures(HealthRegistry::register, (registry, &list), ()),
        0 <= i < old(registry)@.len(),
        0 <= k < list@.len(),
    ensures
        final(registry)@.len() >= old(registry)@.len(),
        final(registry)@[i] == old(registry)@[i],
        knows(final(registry)@, list@[k].addr),
        !knows(old(registry)@, list@[k].addr) ==> addrs(healthy(final(registry)@)).contains(
            list@[k].addr,
        ),
{
    let before = old(registry)@;
    let after = final(registry)@;
    let views = endpoint_views(list@);
    let addr = list@[k].addr;
    registration_keeps_known_backends(before, views, addr);
    assert(after.take(before.len() as int)[i] == after[i]);
    assert(views[k].0 == addr);
    if !knows(before, addr) {
        new_ones_are_healthy(before, views, addr);
        healthy_are_the_healthy(after, addr);
        let m = choose|m: int| 0 <= m < after.len() && (#[trigger] after[m]).addr == addr;
        assert(after[m].status == HealthStatus::Healthy);
    }
}

proof fn new_ones_are_healthy(
    backends: Seq<BackendView>,
    list: Seq<(SocketAddr, Seq<char>)>,
    addr: SocketAddr,
)
    requires
        !knows(backends, addr),
    ensures
        forall|m: int|
            0 <= m < registered_into(backends, list).len() && (#[trigger] registered_into(
                backends,
                list,
            )[m]).addr == addr ==> registered_into(backends, list)[m].status
                == HealthStatus::Healthy,
    decreases list.len(),
{
    if list.len() > 0 {
        new_ones_are_healthy(backends, list.drop_last(), addr);
    }
}

/// The healthy backends come in the order of their registration, with and without their
/// texts, and there are no others.
pub proof fn healthy_are_in_order(
    registry: HealthRegistry,
    addresses: Vec<SocketAddr>,
    endpoints: Vec<Endpoint>,
    i: int,
)
    requires
        call_ensures(HealthRegistry::get_healthy_backends, (&registry,), addresses),
        call_ensures(HealthRegistry::healthy_endpoints, (&registry,), endpoints),
        0 <= i < registry@.len(),
        registry@[i].status == HealthStatus::Healthy,
    ensures
        ({
            let rule = |b: BackendView| b.status == HealthStatus::Healthy;
            let before = registry@.take(i).filter(rule).len() as int;
            &&& addresses@.len() == registry@.filter(rule).len()
            &&& endpoints@.len() == registry@.filter(rule).len()
            &&& before < addresses@.len()
            &&& addresses@[before] == registry@[i].addr
            &&& endpoints@[before].addr == registry@[i].addr
            &&& endpoints@[before].text@ == registry@[i].text
        }),
{
    let rule = |b: BackendView| b.status == HealthStatus::Healthy;
    let before = registry@.take(i).filter(rule).len() as int;
    lists::kept_in_place(registry@, rule, i);
    assert(healthy(registry@) == registry@.filter(rule));
    assert(endpoint_views(endpoints@).len() == endpoints@.len());
    assert(endpoint_views(endpoints@)[before] == (
        endpoints@[before].addr,
        endpoints@[before].text@,
    ));
}

/// A registry answers for each backend with its own health, its text and its place; an
/// address that it does not know has no health.
pub proof fn registry_answers_for_its_backends(
    registry: HealthRegistry,
    addr: SocketAddr,
    status: Option<HealthStatus>,
    count: usize,
    i: usize,
    text: String,
    at: HealthStatus,
)
    requires
        registry.wf(),
        call_ensures(HealthRegistry::get_status, (&registry, &addr), status),
        call_ensures(HealthRegistry::len, (&registry,), count),
        i < registry@.len(),
        call_ensures(HealthRegistry::text_at, (&registry, i), text),
        call_ensures(HealthRegistry::status_at, (&registry, i), at),
    ensures
        count == registry@.len(),
        text@ == registry@[i as int].text,
        at == registry@[i as int].status,
        addr == registry@[i as int].addr ==> status == Some(registry@[i as int].status),
        status is Some ==> knows(registry@, addr),
{
    if addr == registry@[i as int].addr {
        status_is_that_of_the_backend(registry@, i as int);
    }
    only_known_ones_have_a_health(registry@, addr);
}

proof fn only_known_ones_have_a_health(backends: Seq<BackendView>, addr: SocketAddr)
    ensures
        status_in(backends, addr) is Some ==> knows(backends, addr),
    decreases backends.len(),
{
    if backends.len() > 0 {
        if backends.first().addr == addr {
            assert(backends[0].addr == addr);
        } else {
            only_known_ones_have_a_health(backends.drop_first(), addr);
            if knows(backends.drop_first(), addr) {
                let k = choose|k: int|
                    0 <= k < backends.len() - 1 && (
                    #[trigger] backends.drop_first()[k]).addr == addr;
                assert(backends[k + 1].addr == addr);
            }
        }
    }
}

/// Backends are registered in the order of the list: what the front of the list leaves is
/// the front of what the whole list leaves, and each entry adds one backend at most.
pub proof fn registration_is_in_order(
    backends: Seq<BackendView>,
    list: Seq<(SocketAddr, Seq<char>)>,
    k: int,
)
    requires
        0 <= k <= list.len(),
    ensures
        registered_into(backends, list.take(k)).len() <= registered_into(backends, list).len()
            <= registered_into(backends, list.take(k)).len() + (list.len() - k),
        registered_into(backends, list).take(
            registered_into(backends, list.take(k)).len() as int,
        ) == registered_into(backends, list.take(k)),
        k == 0 ==> registered_into(backends, list.take(k)) == backends,
    decreases list.len(),
{
    let head = registered_into(backends, list.take(k));
    if k < list.len() {
        let init = list.drop_last();
        registration_is_in_order(backends, init, k);
        assert(init.take(k) =~= list.take(k));
        let n = head.len() as int;
        assert(registered_into(backends, list).take(n) =~= registered_into(backends, init).take(
            n,
        ));
    } else {
        assert(list.take(k) =~= list);
        assert(head.take(head.len() as int) =~= head);
    }
}

/// A new registry is what registering its list beside nothing leaves.
pub proof fn new_registry_holds_its_list(list: Vec<Endpoint>, registry: HealthRegistry, i: int)
    requires
        call_ensures(HealthRegistry::new, (&list,), registry),
        0 <= i < list@.len(),
    ensures
        registry.wf(),
        registry@ == registered_into(Seq::empty(), endpoint_views(list@)),
        exists|k: int|
            0 <= k < registry@.len() && (#[trigger] registry@[k]).addr == list@[i].addr
                && registry@[k].status == HealthStatus::Healthy,
{
    let views = endpoint_views(list@);
    assert(views[i].0 == list@[i].addr);
    registration_keeps_known_backends(Seq::empty(), views, list@[i].addr);
    new_ones_are_healthy(Seq::empty(), views, list@[i].addr);
}

} // verus!
