//! Backends in the alphabetical order of their texts.

use crate::addr;
use crate::addr::{is_below, SocketAddr};
use crate::health;
use crate::health::Endpoint;
use crate::text;
use crate::text::{comes_before, same_text};
use vstd::prelude::*;
use vstd::relations;

verus! {

/// The order of backends: by their texts, and of backends with the same text by the
/// keys of their addresses.
pub open spec fn text_order() -> spec_fn((SocketAddr, Seq<char>), (SocketAddr, Seq<char>)) -> bool {
    |a: (SocketAddr, Seq<char>), b: (SocketAddr, Seq<char>)| a == b || sooner(a, b)
}

/// `a` comes before `b`.
pub open spec fn sooner(a: (SocketAddr, Seq<char>), b: (SocketAddr, Seq<char>)) -> bool {
    text::precedes(a.1, b.1) || (a.1 == b.1 && addr::key_less(a.0.key_of(), b.0.key_of()))
}

/// The backends of a list in alphabetical order.
pub open spec fn ranked(list: Seq<(SocketAddr, Seq<char>)>) -> Seq<(SocketAddr, Seq<char>)> {
    list.sort_by(text_order())
}

/// Backends are totally ordered.
pub proof fn text_order_is_total()
    ensures
        relations::total_ordering(text_order()),
{
    let order = text_order();
    assert forall|x: (SocketAddr, Seq<char>), y: (SocketAddr, Seq<char>)| #[trigger]
        order(x, y) && #[trigger] order(y, x) implies x == y by {
        if x != y {
            if text::precedes(x.1, y.1) {
                if text::precedes(y.1, x.1) {
                    text::precedes_transitive(x.1, y.1, x.1);
                }
                text::precedes_irreflexive(x.1);
            } else if text::precedes(y.1, x.1) {
                text::precedes_irreflexive(x.1);
            }
        }
    }
    assert forall|x: (SocketAddr, Seq<char>), y: (SocketAddr, Seq<char>)|
        #[trigger] order(x, y) || #[trigger] order(y, x) by {
        text::precedes_total(x.1, y.1);
        addr::key_identifies(x.0, y.0);
    }
    assert forall|
        x: (SocketAddr, Seq<char>),
        y: (SocketAddr, Seq<char>),
        z: (SocketAddr, Seq<char>),
    | #[trigger] order(x, y) && #[trigger] order(y, z) implies order(x, z) by {
        if text::precedes(x.1, y.1) && text::precedes(y.1, z.1) {
            text::precedes_transitive(x.1, y.1, z.1);
        }
    }
}

/// A list in alphabetical order with the backends of `list` is `list` in
/// alphabetical order: there is only one.
pub proof fn ranked_is_unique(
    list: Seq<(SocketAddr, Seq<char>)>,
    sorted: Seq<(SocketAddr, Seq<char>)>,
)
    requires
        relations::sorted_by(sorted, text_order()),
        sorted.to_multiset() == list.to_multiset(),
    ensures
        sorted == ranked(list),
        sorted.len() == list.len(),
{
    vstd::seq_lib::to_multiset_len(sorted);
    vstd::seq_lib::to_multiset_len(list);
    text_order_is_total();
    list.lemma_sort_by_ensures(text_order());
    vstd::seq_lib::lemma_sorted_unique(sorted, ranked(list), text_order());
}

/// In alphabetical order no text stands behind one that it precedes.
pub proof fn ranked_is_alphabetical(list: Seq<(SocketAddr, Seq<char>)>, i: int, j: int)
    requires
        0 <= i < j < list.len(),
    ensures
        ranked(list).len() == list.len(),
        ranked(list)[i].1 == ranked(list)[j].1 || text::precedes(
            ranked(list)[i].1,
            ranked(list)[j].1,
        ),
{
    text_order_is_total();
    list.lemma_sort_by_ensures(text_order());
    ranked_is_unique(list, ranked(list));
    let order = text_order();
    assert(order(ranked(list)[i], ranked(list)[j]));
}

fn comes_sooner(a: &Endpoint, b: &Endpoint) -> (r: bool)
    ensures
        r == sooner((a.addr, a.text@), (b.addr, b.text@)),
{
    comes_before(a.text.as_str(), b.text.as_str()) || (same_text(
        a.text.as_str(),
        b.text.as_str(),
    ) && is_below(&a.addr, &b.addr))
}

/// Sorts a list of backends alphabetically.
pub fn sort_endpoints(list: &[Endpoint]) -> (r: Vec<Endpoint>)
    ensures
        health::endpoint_views(r@) == ranked(health::endpoint_views(list@)),
        r@.len() == list@.len(),
{
    let ghost order = text_order();
    let ghost views = health::endpoint_views(list@);
    let mut r: Vec<Endpoint> = Vec::new();
    let mut i: usize = 0;
    proof {
        text_order_is_total();
        assert(views.take(0) =~= Seq::empty());
        assert(health::endpoint_views(r@) =~= Seq::empty());
    }
    while i < list.len()
        invariant
            i <= list@.len(),
            order == text_order(),
            views == health::endpoint_views(list@),
            relations::total_ordering(order),
            relations::sorted_by(health::endpoint_views(r@), order),
            health::endpoint_views(r@).to_multiset() == views.take(i as int).to_multiset(),
        decreases list@.len() - i,
    {
        let ghost before = health::endpoint_views(r@);
        let ghost item = views[i as int];
        let mut p: usize = r.len();
        while p > 0 && comes_sooner(&list[i], &r[p - 1])
            invariant
                p <= r@.len(),
                i < list@.len(),
                order == text_order(),
                before == health::endpoint_views(r@),
                item == (list@[i as int].addr, list@[i as int].text@),
                relations::total_ordering(order),
                relations::sorted_by(before, order),
                forall|j: int| p <= j < before.len() ==> #[trigger] order(item, before[j]),
            decreases p,
        {
            proof {
                assert(before[p - 1] == (r@[p - 1].addr, r@[p - 1].text@));
            }
            p = p - 1;
        }
        proof {
            if p > 0 {
                assert(before[p - 1] == (r@[p - 1].addr, r@[p - 1].text@));
                assert(order(before[p - 1], item)) by {
                    assert(order(before[p - 1], item) || order(item, before[p - 1]));
                }
                assert forall|j: int| 0 <= j < p implies #[trigger] order(before[j], item) by {
                    if j < p - 1 {
                        assert(order(before[j], before[p - 1]));
                    }
                }
            }
        }
        r.insert(p, Endpoint { addr: list[i].addr, text: list[i].text.clone() });
        proof {
            let after = health::endpoint_views(r@);
            assert(after =~= before.insert(p as int, item));
            assert(relations::sorted_by(after, order)) by {
                assert forall|a: int, b: int| 0 <= a < b < after.len() implies #[trigger] order(
                    after[a],
                    after[b],
                ) by {
                    let x = if a < p { a } else { a - 1 };
                    let y = if b < p { b } else { b - 1 };
                    if a != p && b != p {
                        assert(order(before[x], before[y]));
                    } else if a == p {
                        assert(order(item, before[y]));
                    } else {
                        assert(order(before[x], item));
                    }
                }
            }
            assert(views.take(i + 1) =~= views.take(i as int).push(item));
            vstd::seq_lib::to_multiset_build(views.take(i as int), item);
            vstd::seq_lib::to_multiset_insert(before, p as int, item);
        }
        i = i + 1;
    }
    proof {
        assert(views.take(i as int) =~= views);
        ranked_is_unique(views, health::endpoint_views(r@));
        assert(health::endpoint_views(r@).len() == r@.len());
    }
    r
}

/// The sorted list holds the backends of the list, each as often; texts stand in
/// alphabetical order, and of IPv4 backends with one text the one with the lower address
/// comes first, or with one address the lower port.
pub proof fn sorted_backends_are_in_order(
    list: &[Endpoint],
    sorted: Vec<Endpoint>,
    i: int,
    j: int,
)
    requires
        call_ensures(sort_endpoints, (list,), sorted),
        0 <= i < j < sorted@.len(),
    ensures
        health::endpoint_views(sorted@).to_multiset() == health::endpoint_views(
            list@,
        ).to_multiset(),
        sorted@[i].text@ == sorted@[j].text@ || text::precedes(
            sorted@[i].text@,
            sorted@[j].text@,
        ),
        sorted@[i].text@ == sorted@[j].text@ ==> match (sorted@[i].addr, sorted@[j].addr) {
            (
                SocketAddr::V4 { ip: a, port: p },
                SocketAddr::V4 { ip: b, port: q },
            ) => a < b || (a == b && p <= q),
            (SocketAddr::V6 { .. }, SocketAddr::V4 { .. }) => false,
            _ => true,
        },
{
    let views = health::endpoint_views(list@);
    let after = health::endpoint_views(sorted@);
    text_order_is_total();
    views.lemma_sort_by_ensures(text_order());
    assert(after.len() == sorted@.len());
    assert(after[i] == (sorted@[i].addr, sorted@[i].text@));
    assert(after[j] == (sorted@[j].addr, sorted@[j].text@));
    let order = text_order();
    assert(order(after[i], after[j]));
    text::precedes_irreflexive(after[i].1);
}

} // verus!
