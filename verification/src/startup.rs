//! The backends that a configuration names.

use crate::config::{ProxyConfig, TcpServerConfig};
use crate::health::Endpoint;
use crate::text::copy_texts;
use crate::{addr::SocketAddr, health, lists, text};
use vstd::prelude::*;

verus! {

/// The targets of the TCP servers, one server after the other.
pub open spec fn all_tcp_targets(servers: Seq<TcpServerConfig>) -> Seq<Seq<char>>
    decreases servers.len(),
{
    if servers.len() == 0 {
        Seq::empty()
    } else {
        all_tcp_targets(servers.drop_last()) + text::texts(servers.last().targets@)
    }
}

/// The HTTP targets of a configuration: those of its first cluster.
pub fn http_targets(config: &ProxyConfig) -> (r: Vec<String>)
    ensures
        text::texts(r@) == (if config.clusters@.len() > 0 {
            text::texts(config.clusters@[0].targets@)
        } else {
            Seq::empty()
        }),
{
    if config.clusters.len() > 0 {
        copy_texts(&config.clusters[0].targets)
    } else {
        let r: Vec<String> = Vec::new();
        assert(text::texts(r@) =~= Seq::empty());
        r
    }
}

/// The TCP targets of a configuration: those of all its TCP servers.
pub fn tcp_targets(config: &ProxyConfig) -> (r: Vec<String>)
    ensures
        text::texts(r@) == all_tcp_targets(config.tcp_servers@),
{
    let ghost servers = config.tcp_servers@;
    let mut r: Vec<String> = Vec::new();
    let mut i: usize = 0;
    proof {
        assert(servers.take(0) =~= Seq::empty());
        assert(text::texts(r@) =~= Seq::empty());
    }
    while i < config.tcp_servers.len()
        invariant
            servers == config.tcp_servers@,
            i <= servers.len(),
            text::texts(r@) == all_tcp_targets(servers.take(i as int)),
        decreases servers.len() - i,
    {
        let ghost before = r@;
        let mut more = copy_texts(&config.tcp_servers[i].targets);
        r.append(&mut more);
        proof {
            assert(servers.take(i + 1).drop_last() =~= servers.take(i as int));
            assert(text::texts(r@) =~= text::texts(before) + text::texts(
                servers[i as int].targets@,
            ));
        }
        i = i + 1;
    }
    proof {
        assert(servers.take(i as int) =~= servers);
    }
    r
}

/// The endpoints in a list, what is `None` left out.
pub open spec fn present(list: Seq<Option<Endpoint>>) -> Seq<(SocketAddr, Seq<char>)>
    decreases list.len(),
{
    if list.len() == 0 {
        Seq::empty()
    } else {
        match list.last() {
            Some(endpoint) => present(list.drop_last()).push((endpoint.addr, endpoint.text@)),
            None => present(list.drop_last()),
        }
    }
}

/// The addresses in a list of addresses and texts.
pub open spec fn first_parts(list: Seq<(SocketAddr, Seq<char>)>) -> Seq<SocketAddr> {
    Seq::new(list.len(), |i: int| list[i].0)
}

fn push_present(list: &Vec<Option<Endpoint>>, into: &mut Vec<Endpoint>)
    ensures
        health::endpoint_views(final(into)@) == health::endpoint_views(old(into)@) + present(list@),
{
    let ghost base = health::endpoint_views(old(into)@);
    let mut i: usize = 0;
    proof {
        assert(list@.take(0) =~= Seq::empty());
        assert(base + present(list@.take(0)) =~= base);
    }
    while i < list.len()
        invariant
            i <= list@.len(),
            health::endpoint_views(into@) == base + present(list@.take(i as int)),
        decreases list@.len() - i,
    {
        let ghost before = health::endpoint_views(into@);
        proof {
            assert(list@.take(i + 1).drop_last() =~= list@.take(i as int));
        }
        if let Some(endpoint) = &list[i] {
            into.push(Endpoint { addr: endpoint.addr, text: endpoint.text.clone() });
            proof {
                assert(health::endpoint_views(into@) =~= before.push(
                    (endpoint.addr, endpoint.text@),
                ));
                assert(base + present(list@.take(i + 1)) =~= before.push(
                    (endpoint.addr, endpoint.text@),
                ));
            }
        }
        i = i + 1;
    }
    proof {
        assert(list@.take(i as int) =~= list@);
    }
}

/// The backends to register, from what became of parsing the HTTP targets and the
/// TCP targets: the addresses among the former, then those among the latter. What
/// is no address is left out.
pub fn backends_to_register(http: &Vec<Option<Endpoint>>, tcp: &Vec<Option<Endpoint>>) -> (r: Vec<
    Endpoint,
>)
    ensures
        health::endpoint_views(r@) == present(http@) + present(tcp@),
{
    let mut r: Vec<Endpoint> = Vec::new();
    proof {
        assert(health::endpoint_views(r@) + present(http@) =~= present(http@));
    }
    push_present(http, &mut r);
    push_present(tcp, &mut r);
    r
}

/// The addresses that are probed by HTTP, from what became of parsing the HTTP
/// targets.
pub fn http_addrs(http: &Vec<Option<Endpoint>>) -> (r: Vec<SocketAddr>)
    ensures
        r@ == first_parts(present(http@)),
{
    let mut r: Vec<SocketAddr> = Vec::new();
    let mut i: usize = 0;
    proof {
        assert(http@.take(0) =~= Seq::empty());
        assert(r@ =~= first_parts(present(http@.take(0))));
    }
    while i < http.len()
        invariant
            i <= http@.len(),
            r@ == first_parts(present(http@.take(i as int))),
        decreases http@.len() - i,
    {
        proof {
            assert(http@.take(i + 1).drop_last() =~= http@.take(i as int));
        }
        let ghost before = present(http@.take(i as int));
        if let Some(endpoint) = &http[i] {
            r.push(endpoint.addr);
            proof {
                assert(r@ =~= first_parts(before.push((endpoint.addr, endpoint.text@))));
            }
        }
        i = i + 1;
    }
    proof {
        assert(http@.take(i as int) =~= http@);
    }
    r
}

/// The TCP targets are the targets of the TCP servers, all of them and no others.
pub proof fn tcp_targets_are_those_of_the_servers(servers: Seq<TcpServerConfig>, target: Seq<char>)
    ensures
        all_tcp_targets(servers).contains(target) <==> exists|i: int|
            0 <= i < servers.len() && text::texts((#[trigger] servers[i]).targets@).contains(
                target,
            ),
    decreases servers.len(),
{
    if servers.len() > 0 {
        let init = servers.drop_last();
        let last = text::texts(servers.last().targets@);
        let before = all_tcp_targets(init);
        tcp_targets_are_those_of_the_servers(init, target);
        let all = before + last;
        if all.contains(target) {
            let k = choose|k: int| 0 <= k < all.len() && all[k] == target;
            if k < before.len() {
                assert(before[k] == target);
                let i = choose|i: int|
                    0 <= i < init.len() && text::texts((#[trigger] init[i]).targets@).contains(
                        target,
                    );
                assert(servers[i] == init[i]);
            } else {
                assert(last[k - before.len()] == target);
                assert(servers[servers.len() - 1] == servers.last());
            }
        }
        if exists|i: int|
            0 <= i < servers.len() && text::texts((#[trigger] servers[i]).targets@).contains(
                target,
            ) {
            let i = choose|i: int|
                0 <= i < servers.len() && text::texts((#[trigger] servers[i]).targets@).contains(
                    target,
                );
            if i < init.len() {
                assert(init[i] == servers[i]);
                let k = choose|k: int| 0 <= k < before.len() && before[k] == target;
                assert(all[k] == target);
            } else {
                let k = choose|k: int| 0 <= k < last.len() && last[k] == target;
                assert(all[before.len() + k] == target);
            }
        }
    }
}

/// Every target that is an address is registered, the HTTP targets and the TCP targets;
/// and nothing else is.
pub proof fn addresses_are_registered(
    http: Vec<Option<Endpoint>>,
    tcp: Vec<Option<Endpoint>>,
    list: Vec<Endpoint>,
    addr: SocketAddr,
    text: Seq<char>,
)
    requires
        call_ensures(backends_to_register, (&http, &tcp), list),
    ensures
        health::endpoint_views(list@).contains((addr, text)) <==> (exists|i: int|
            0 <= i < http@.len() && ((#[trigger] http@[i]) matches Some(e) && e.addr == addr
                && e.text@ == text)) || (exists|i: int|
            0 <= i < tcp@.len() && ((#[trigger] tcp@[i]) matches Some(e) && e.addr == addr
                && e.text@ == text)),
{
    let a = present(http@);
    let b = present(tcp@);
    present_are_the_some(http@, addr, text);
    present_are_the_some(tcp@, addr, text);
    let all = a + b;
    let item = (addr, text);
    if a.contains(item) {
        let k = choose|k: int| 0 <= k < a.len() && a[k] == item;
        assert(all[k] == item);
    }
    if b.contains(item) {
        let k = choose|k: int| 0 <= k < b.len() && b[k] == item;
        assert(all[a.len() + k] == item);
    }
    if all.contains(item) {
        let k = choose|k: int| 0 <= k < all.len() && all[k] == item;
        if k < a.len() {
            assert(a[k] == item);
        } else {
            assert(b[k - a.len()] == item);
        }
    }
}

proof fn present_are_the_some(list: Seq<Option<Endpoint>>, addr: SocketAddr, text: Seq<char>)
    ensures
        present(list).contains((addr, text)) <==> exists|i: int|
            0 <= i < list.len() && ((#[trigger] list[i]) matches Some(e) && e.addr == addr
                && e.text@ == text),
    decreases list.len(),
{
    if list.len() > 0 {
        let init = list.drop_last();
        let before = present(init);
        let item = (addr, text);
        present_are_the_some(init, addr, text);
        if before.contains(item) {
            let i = choose|i: int|
                0 <= i < init.len() && ((#[trigger] init[i]) matches Some(e) && e.addr == addr
                    && e.text@ == text);
            assert(list[i] == init[i]);
            let k = choose|k: int| 0 <= k < before.len() && before[k] == item;
            assert(present(list)[k] == item);
        }
        if let Some(e) = list.last() {
            let all = before.push((e.addr, e.text@));
            assert(all[before.len() as int] == (e.addr, e.text@));
            if all.contains(item) && !before.contains(item) {
                let k = choose|k: int| 0 <= k < all.len() && all[k] == item;
                if k < before.len() {
                    assert(before[k] == item);
                }
                assert(list[list.len() - 1] == list.last());
            }
        }
        if exists|i: int|
            0 <= i < list.len() && ((#[trigger] list[i]) matches Some(e) && e.addr == addr
                && e.text@ == text) {
            let i = choose|i: int|
                0 <= i < list.len() && ((#[trigger] list[i]) matches Some(e) && e.addr == addr
                    && e.text@ == text);
            if i < init.len() {
                assert(init[i] == list[i]);
            }
        }
    }
}

/// The addresses that are probed by HTTP are those among the HTTP targets.
pub proof fn http_addresses_are_those_of_the_targets(
    http: Vec<Option<Endpoint>>,
    addrs: Vec<SocketAddr>,
    addr: SocketAddr,
)
    requires
        call_ensures(http_addrs, (&http,), addrs),
    ensures
        addrs@.contains(addr) <==> exists|i: int|
            0 <= i < http@.len() && ((#[trigger] http@[i]) matches Some(e) && e.addr == addr),
{
    let list = present(http@);
    if addrs@.contains(addr) {
        let k = choose|k: int| 0 <= k < addrs@.len() && addrs@[k] == addr;
        assert(list[k].0 == addr);
        present_are_the_some(http@, addr, list[k].1);
        assert(list.contains((addr, list[k].1)));
    }
    if exists|i: int|
        0 <= i < http@.len() && ((#[trigger] http@[i]) matches Some(e) && e.addr == addr) {
        let i = choose|i: int|
            0 <= i < http@.len() && ((#[trigger] http@[i]) matches Some(e) && e.addr == addr);
        let text = http@[i]->0.text@;
        present_are_the_some(http@, addr, text);
        let k = choose|k: int| 0 <= k < list.len() && list[k] == (addr, text);
        assert(addrs@[k] == addr);
    }
}

/// The TCP targets come one server after the other: those of a server stand between those
/// of the servers before it and those of the servers behind it.
pub proof fn tcp_targets_are_in_order(config: ProxyConfig, targets: Vec<String>, i: int)
    requires
        call_ensures(tcp_targets, (&config,), targets),
        0 <= i < config.tcp_servers@.len(),
    ensures
        text::texts(targets@) == all_tcp_targets(config.tcp_servers@.take(i)) + text::texts(
            config.tcp_servers@[i].targets@,
        ) + all_tcp_targets(config.tcp_servers@.skip(i + 1)),
        all_tcp_targets(Seq::empty()).len() == 0,
{
    let servers = config.tcp_servers@;
    targets_add_up(servers.take(i + 1), servers.skip(i + 1));
    assert(servers.take(i + 1) + servers.skip(i + 1) =~= servers);
    assert(servers.take(i + 1).drop_last() =~= servers.take(i));
}

proof fn targets_add_up(a: Seq<TcpServerConfig>, b: Seq<TcpServerConfig>)
    ensures
        all_tcp_targets(a + b) == all_tcp_targets(a) + all_tcp_targets(b),
    decreases b.len(),
{
    if b.len() > 0 {
        targets_add_up(a, b.drop_last());
        assert((a + b).drop_last() =~= a + b.drop_last());
        assert(all_tcp_targets(a + b) =~= all_tcp_targets(a) + all_tcp_targets(b));
    } else {
        assert(a + b =~= a);
        assert(all_tcp_targets(a) + all_tcp_targets(b) =~= all_tcp_targets(a));
    }
}

/// The HTTP targets are those of the first cluster, and there are none without one.
pub proof fn http_targets_are_those_of_the_first_cluster(
    config: ProxyConfig,
    targets: Vec<String>,
)
    requires
        call_ensures(http_targets, (&config,), targets),
    ensures
        config.clusters@.len() == 0 ==> targets@.len() == 0,
        config.clusters@.len() > 0 ==> text::texts(targets@) == text::texts(
            config.clusters@[0].targets@,
        ),
{
    assert(text::texts(targets@).len() == targets@.len());
}

/// The backends are registered in the order of the targets, the HTTP targets before the TCP
/// targets: an address stands behind as many as there are addresses before it.
pub proof fn addresses_are_registered_in_order(
    http: Vec<Option<Endpoint>>,
    tcp: Vec<Option<Endpoint>>,
    list: Vec<Endpoint>,
    i: int,
)
    requires
        call_ensures(backends_to_register, (&http, &tcp), list),
    ensures
        ({
            let rule = |e: Option<Endpoint>| e is Some;
            let first = http@.filter(rule).len() as int;
            &&& list@.len() == first + tcp@.filter(rule).len()
            &&& 0 <= i < http@.len() && http@[i] is Some ==> {
                let k = http@.take(i).filter(rule).len() as int;
                &&& k < list@.len()
                &&& list@[k].addr == http@[i]->0.addr
                &&& list@[k].text@ == http@[i]->0.text@
            }
            &&& 0 <= i < tcp@.len() && tcp@[i] is Some ==> {
                let k = first + tcp@.take(i).filter(rule).len();
                &&& k < list@.len()
                &&& list@[k].addr == tcp@[i]->0.addr
                &&& list@[k].text@ == tcp@[i]->0.text@
            }
        }),
{
    let rule = |e: Option<Endpoint>| e is Some;
    let first = http@.filter(rule).len() as int;
    present_in_place(http@, rule, i);
    present_in_place(tcp@, rule, i);
    let views = health::endpoint_views(list@);
    assert(views.len() == list@.len());
    assert(forall|k: int|
        0 <= k < views.len() ==> #[trigger] views[k] == (list@[k].addr, list@[k].text@));
    if 0 <= i < http@.len() && http@[i] is Some {
        let k = http@.take(i).filter(rule).len() as int;
        assert(views[k] == present(http@)[k]);
    }
    if 0 <= i < tcp@.len() && tcp@[i] is Some {
        let k = tcp@.take(i).filter(rule).len() as int;
        assert(views[first + k] == present(tcp@)[k]);
    }
}

/// The addresses that are probed by HTTP come in the order of the HTTP targets.
pub proof fn http_addresses_are_in_order(
    http: Vec<Option<Endpoint>>,
    addresses: Vec<SocketAddr>,
    i: int,
)
    requires
        call_ensures(http_addrs, (&http,), addresses),
        0 <= i < http@.len(),
        http@[i] is Some,
    ensures
        ({
            let rule = |e: Option<Endpoint>| e is Some;
            let k = http@.take(i).filter(rule).len() as int;
            &&& addresses@.len() == http@.filter(rule).len()
            &&& k < addresses@.len()
            &&& addresses@[k] == http@[i]->0.addr
        }),
{
    let rule = |e: Option<Endpoint>| e is Some;
    present_in_place(http@, rule, i);
}

proof fn present_in_place(
    list: Seq<Option<Endpoint>>,
    rule: spec_fn(Option<Endpoint>) -> bool,
    i: int,
)
    requires
        forall|e: Option<Endpoint>| #[trigger] rule(e) == (e is Some),
    ensures
        present(list).len() == list.filter(rule).len(),
        0 <= i < list.len() && list[i] is Some ==> {
            let k = list.take(i).filter(rule).len() as int;
            &&& k < present(list).len()
            &&& present(list)[k] == (list[i]->0.addr, list[i]->0.text@)
        },
{
    present_are_kept(list, rule);
    if 0 <= i < list.len() && list[i] is Some {
        assert(rule(list[i]));
        lists::kept_in_place(list, rule, i);
        let k = list.take(i).filter(rule).len() as int;
        assert(list.filter(rule)[k] == list[i]);
    }
}

proof fn present_are_kept(
    list: Seq<Option<Endpoint>>,
    rule: spec_fn(Option<Endpoint>) -> bool,
)
    requires
        forall|e: Option<Endpoint>| #[trigger] rule(e) == (e is Some),
    ensures
        present(list).len() == list.filter(rule).len(),
        forall|k: int|
            0 <= k < present(list).len() ==> #[trigger] present(list)[k] == (
                list.filter(rule)[k]->0.addr,
                list.filter(rule)[k]->0.text@,
            ),
    decreases list.len(),
{
    reveal(Seq::filter);
    if list.len() > 0 {
        present_are_kept(list.drop_last(), rule);
        assert(rule(list.last()) == (list.last() is Some));
    }
}

} // verus!
