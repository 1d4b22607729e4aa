//! The targets of the gateway, merged from the providers that announce them.

use super::balancer;
use super::balancer::LeastConnections;
use crate::lists;
use crate::text;
use crate::text::{chars_of, comes_before, lines, trim};
use vstd::prelude::*;

verus! {

/// The file that lists the static targets.
pub const ROUTES_FILE: &'static str = "routes.txt";

/// How long to wait between two readings of the file, in seconds.
pub const ROUTES_INTERVAL_SECS: u64 = 3;

/// Each text comes before the ones behind it, so none stands twice.
pub open spec fn ascending(list: Seq<Seq<char>>) -> bool {
    forall|i: int, j: int|
        0 <= i < j < list.len() ==> text::precedes(#[trigger] list[i], #[trigger] list[j])
}

/// `list` holds the elements of `set` in ascending order, each once.
pub open spec fn is_listing(list: Seq<Seq<char>>, set: Set<Seq<char>>) -> bool {
    ascending(list) && list.to_set() == set
}

/// The elements of a finite set in ascending order.
pub open spec fn listing(set: Set<Seq<char>>) -> Seq<Seq<char>> {
    choose|list: Seq<Seq<char>>| is_listing(list, set)
}

proof fn ascending_last(list: Seq<Seq<char>>)
    requires
        ascending(list),
        list.len() > 0,
    ensures
        ascending(list.drop_last()),
        list.drop_last().to_set() == list.to_set().remove(list.last()),
        forall|s: Seq<char>| #[trigger]
            list.to_set().contains(s) ==> s == list.last() || text::precedes(s, list.last()),
{
    let front = list.drop_last();
    let n = list.len() - 1;
    assert forall|s: Seq<char>| #[trigger] list.to_set().contains(s) implies s == list.last()
        || text::precedes(s, list.last()) by {
        let i = choose|i: int| 0 <= i < list.len() && list[i] == s;
        if i < n {
            assert(text::precedes(list[i], list[n]));
        }
    }
    assert forall|s: Seq<char>| front.to_set().contains(s) == list.to_set().remove(
        list.last(),
    ).contains(s) by {
        if front.contains(s) {
            let i = choose|i: int| 0 <= i < front.len() && front[i] == s;
            assert(list[i] == s);
            assert(text::precedes(list[i], list[n]));
            text::precedes_irreflexive(s);
        }
        if list.contains(s) && s != list.last() {
            let i = choose|i: int| 0 <= i < list.len() && list[i] == s;
            assert(front[i] == s);
        }
    }
    assert(front.to_set() =~= list.to_set().remove(list.last()));
}

/// A set has one listing: two ascending lists of the same elements are the same.
pub proof fn listing_is_unique(a: Seq<Seq<char>>, b: Seq<Seq<char>>)
    requires
        ascending(a),
        ascending(b),
        a.to_set() == b.to_set(),
    ensures
        a == b,
    decreases a.len(),
{
    if a.len() == 0 || b.len() == 0 {
        if a.len() > 0 {
            assert(a.to_set().contains(a[0]));
            assert(b.contains(a[0]));
        }
        if b.len() > 0 {
            assert(b.to_set().contains(b[0]));
            assert(a.contains(b[0]));
        }
        assert(a =~= b);
    } else {
        ascending_last(a);
        ascending_last(b);
        assert(a[a.len() - 1] == a.last() && b[b.len() - 1] == b.last());
        assert(a.to_set().contains(a.last()) && b.to_set().contains(b.last()));
        if a.last() != b.last() {
            text::precedes_transitive(a.last(), b.last(), a.last());
            text::precedes_irreflexive(a.last());
        }
        listing_is_unique(a.drop_last(), b.drop_last());
        assert(a =~= a.drop_last().push(a.last()));
        assert(b =~= b.drop_last().push(b.last()));
    }
}

/// An item put behind those that precede it, into an ascending list that does not hold
/// it, keeps the list ascending.
proof fn inserted_ascends(list: Seq<Seq<char>>, p: int, item: Seq<char>)
    requires
        ascending(list),
        0 <= p <= list.len(),
        forall|j: int| 0 <= j < p ==> text::precedes(#[trigger] list[j], item),
        p < list.len() ==> list[p] != item && !text::precedes(list[p], item),
    ensures
        ascending(list.insert(p, item)),
        list.insert(p, item).to_set() == list.to_set().insert(item),
{
    let after = list.insert(p, item);
    assert forall|j: int| p <= j < list.len() implies text::precedes(
        item,
        #[trigger] list[j],
    ) by {
        text::precedes_total(item, list[p]);
        if j > p {
            assert(text::precedes(list[p], list[j]));
            text::precedes_transitive(item, list[p], list[j]);
        }
    }
    assert forall|a: int, b: int| 0 <= a < b < after.len() implies text::precedes(
        #[trigger] after[a],
        #[trigger] after[b],
    ) by {
        if a < p && b < p {
            assert(text::precedes(list[a], list[b]));
        } else if a < p && b > p {
            assert(text::precedes(list[a], list[b - 1]));
        } else if a > p {
            assert(text::precedes(list[a - 1], list[b - 1]));
        } else if a == p {
            assert(text::precedes(item, list[b - 1]));
        }
    }
    assert forall|s: Seq<char>| after.to_set().contains(s) == list.to_set().insert(
        item,
    ).contains(s) by {
        if after.contains(s) {
            let a = choose|a: int| 0 <= a < after.len() && after[a] == s;
            if a < p {
                assert(list[a] == s);
            } else if a > p {
                assert(list[a - 1] == s);
            }
        }
        if list.contains(s) {
            let a = choose|a: int| 0 <= a < list.len() && list[a] == s;
            if a < p {
                assert(after[a] == s);
            } else {
                assert(after[a + 1] == s);
            }
        }
        assert(after[p] == item);
    }
    assert(after.to_set() =~= list.to_set().insert(item));
}

/// How many items at the front of `list` precede `item`.
spec fn front(list: Seq<Seq<char>>, item: Seq<char>) -> int
    decreases list.len(),
{
    if list.len() == 0 || !text::precedes(list.first(), item) {
        0
    } else {
        1 + front(list.drop_first(), item)
    }
}

proof fn front_precedes(list: Seq<Seq<char>>, item: Seq<char>)
    ensures
        0 <= front(list, item) <= list.len(),
        forall|j: int| 0 <= j < front(list, item) ==> text::precedes(#[trigger] list[j], item),
        front(list, item) < list.len() ==> !text::precedes(list[front(list, item)], item),
    decreases list.len(),
{
    if list.len() > 0 && text::precedes(list.first(), item) {
        let rest = list.drop_first();
        front_precedes(rest, item);
        assert forall|j: int| 0 <= j < front(list, item) implies text::precedes(
            #[trigger] list[j],
            item,
        ) by {
            if j > 0 {
                assert(rest[j - 1] == list[j]);
            }
        }
    }
}

/// The elements of any list can be listed in ascending order, each once.
pub proof fn listing_exists(items: Seq<Seq<char>>)
    ensures
        is_listing(listing(items.to_set()), items.to_set()),
    decreases items.len(),
{
    if items.len() == 0 {
        assert(is_listing(Seq::empty(), items.to_set())) by {
            assert(Seq::<Seq<char>>::empty().to_set() =~= items.to_set());
        }
    } else {
        let item = items.last();
        let n = items.len() - 1;
        listing_exists(items.drop_last());
        set_of_take(items, n);
        assert(items.take(n + 1) =~= items);
        assert(items.take(n) =~= items.drop_last());
        let list = listing(items.drop_last().to_set());
        let p = front(list, item);
        front_precedes(list, item);
        if p < list.len() && list[p] == item {
            assert(list.contains(item));
            assert(list.to_set() =~= list.to_set().insert(item));
            assert(is_listing(list, items.to_set()));
        } else {
            inserted_ascends(list, p, item);
            assert(is_listing(list.insert(p, item), items.to_set()));
        }
    }
}

/// What `listing` chooses, where there is a listing at all.
proof fn listing_is(list: Seq<Seq<char>>, set: Set<Seq<char>>)
    requires
        is_listing(list, set),
    ensures
        listing(set) == list,
{
    listing_is_unique(listing(set), list);
}

/// Puts `item` at its place in an ascending list, unless it is there.
fn insert_ascending(list: &mut Vec<String>, item: &String)
    requires
        ascending(text::texts(old(list)@)),
    ensures
        ascending(text::texts(final(list)@)),
        text::texts(final(list)@).to_set() == text::texts(old(list)@).to_set().insert(item@),
        final(list)@.len() <= old(list)@.len() + 1,
{
    let ghost before = text::texts(list@);
    let mut i: usize = 0;
    while i < list.len() && comes_before(list[i].as_str(), item.as_str())
        invariant
            before == text::texts(list@),
            i <= list@.len(),
            forall|j: int| 0 <= j < i ==> text::precedes(#[trigger] before[j], item@),
        decreases list@.len() - i,
    {
        proof {
            assert(before[i as int] == list@[i as int]@);
        }
        i = i + 1;
    }
    if i < list.len() && list[i] == *item {
        proof {
            assert(before[i as int] == item@);
            assert(before.contains(item@));
            assert(before.to_set() =~= before.to_set().insert(item@));
        }
        return;
    }
    proof {
        inserted_ascends(before, i as int, item@);
    }
    list.insert(i, item.clone());
    proof {
        assert(text::texts(list@) =~= before.insert(i as int, item@));
    }
}

proof fn set_of_take(list: Seq<Seq<char>>, i: int)
    requires
        0 <= i < list.len(),
    ensures
        list.take(i + 1).to_set() == list.take(i).to_set().insert(list[i]),
{
    let a = list.take(i + 1);
    let b = list.take(i);
    assert forall|s: Seq<char>| a.to_set().contains(s) == b.to_set().insert(list[i]).contains(
        s,
    ) by {
        if a.contains(s) {
            let p = choose|p: int| 0 <= p < a.len() && a[p] == s;
            if p < i {
                assert(b[p] == s);
            }
        }
        if b.contains(s) {
            let p = choose|p: int| 0 <= p < b.len() && b[p] == s;
            assert(a[p] == s);
        }
        assert(a[i] == list[i]);
    }
    assert(a.to_set() =~= b.to_set().insert(list[i]));
}

/// Puts all of `items` into an ascending list.
fn insert_all(list: &mut Vec<String>, items: &Vec<String>)
    requires
        ascending(text::texts(old(list)@)),
    ensures
        ascending(text::texts(final(list)@)),
        text::texts(final(list)@).to_set() == text::texts(old(list)@).to_set().union(
            text::texts(items@).to_set(),
        ),
        final(list)@.len() <= old(list)@.len() + items@.len(),
{
    let ghost before = text::texts(list@).to_set();
    let ghost all = text::texts(items@);
    let mut i: usize = 0;
    proof {
        assert(before =~= before.union(all.take(0).to_set()));
    }
    while i < items.len()
        invariant
            i <= items@.len(),
            all == text::texts(items@),
            ascending(text::texts(list@)),
            text::texts(list@).to_set() == before.union(all.take(i as int).to_set()),
            list@.len() <= old(list)@.len() + i,
        decreases items@.len() - i,
    {
        insert_ascending(list, &items[i]);
        proof {
            set_of_take(all, i as int);
            assert(before.union(all.take(i as int).to_set()).insert(all[i as int]) =~= before.union(
                all.take(i + 1).to_set(),
            ));
        }
        i = i + 1;
    }
    proof {
        assert(all.take(i as int) =~= all);
    }
}

/// The targets that each provider announced, and the table that they are routed by.
pub struct ProviderRegistry {
    /// What the static provider announced.
    pub static_targets: Vec<String>,
    /// What the container provider announced.
    pub docker_targets: Vec<String>,
    /// The routing table.
    pub balancer: LeastConnections,
}

impl ProviderRegistry {
    /// The targets of the static provider.
    pub open spec fn static_set(&self) -> Set<Seq<char>> {
        text::texts(self.static_targets@).to_set()
    }

    /// The targets of the container provider.
    pub open spec fn docker_set(&self) -> Set<Seq<char>> {
        text::texts(self.docker_targets@).to_set()
    }

    /// How many targets the two providers announced, at most.
    pub open spec fn size(&self) -> nat {
        self.static_targets@.len() + self.docker_targets@.len()
    }

    /// The addresses that the table should hold.
    pub open spec fn merged(&self) -> Seq<Seq<char>> {
        listing(self.static_set().union(self.docker_set()))
    }

    /// The registry is well-formed.
    pub open spec fn wf(&self) -> bool {
        self.balancer.wf()
    }

    /// Starts without targets.
    pub fn new(balancer: LeastConnections) -> (r: ProviderRegistry)
        requires
            balancer.wf(),
        ensures
            r.wf(),
            r.balancer == balancer,
            r.static_set().is_empty(),
            r.docker_set().is_empty(),
            r.size() == 0,
    {
        let r = ProviderRegistry {
            static_targets: Vec::new(),
            docker_targets: Vec::new(),
            balancer,
        };
        proof {
            assert(r.static_set() =~= Set::empty());
            assert(r.docker_set() =~= Set::empty());
        }
        r
    }

    /// Whether the table has counters for `more` targets beside those announced.
    pub fn has_room(&self, more: usize) -> (r: bool)
        ensures
            r == (self.balancer.next() + self.size() + more <= u64::MAX),
    {
        self.balancer.counters_used() as u128 + self.static_targets.len() as u128
            + self.docker_targets.len() as u128 + more as u128 <= u64::MAX as u128
    }

    /// Replaces the targets of the static provider.
    pub fn update_static(&mut self, targets: Vec<String>)
        requires
            old(self).wf(),
            old(self).balancer.next() + old(self).size() + targets@.len() <= u64::MAX,
        ensures
            final(self).wf(),
            final(self).static_set() == text::texts(targets@).to_set(),
            final(self).docker_set() == old(self).docker_set(),
            final(self).size() <= old(self).size() + targets@.len(),
            is_listing(
                final(self).merged(),
                final(self).static_set().union(final(self).docker_set()),
            ),
            final(self).balancer@ == balancer::reloaded(
                old(self).balancer@,
                final(self).merged(),
                old(self).balancer.next(),
            ),
            final(self).balancer.next() == old(self).balancer.next() + balancer::newcomers(
                old(self).balancer@,
                final(self).merged(),
            ),
    {
        self.static_targets = targets;
        self.sync();
    }

    /// Replaces the targets of the container provider.
    pub fn update_docker(&mut self, targets: Vec<String>)
        requires
            old(self).wf(),
            old(self).balancer.next() + old(self).size() + targets@.len() <= u64::MAX,
        ensures
            final(self).wf(),
            final(self).docker_set() == text::texts(targets@).to_set(),
            final(self).static_set() == old(self).static_set(),
            final(self).size() <= old(self).size() + targets@.len(),
            is_listing(
                final(self).merged(),
                final(self).static_set().union(final(self).docker_set()),
            ),
            final(self).balancer@ == balancer::reloaded(
                old(self).balancer@,
                final(self).merged(),
                old(self).balancer.next(),
            ),
            final(self).balancer.next() == old(self).balancer.next() + balancer::newcomers(
                old(self).balancer@,
                final(self).merged(),
            ),
    {
        self.docker_targets = targets;
        self.sync();
    }

    /// Merges the targets of the two providers into the table: in ascending order,
    /// each once.
    pub fn sync(&mut self)
        requires
            old(self).wf(),
            old(self).balancer.next() + old(self).size() <= u64::MAX,
        ensures
            final(self).wf(),
            final(self).static_set() == old(self).static_set(),
            final(self).docker_set() == old(self).docker_set(),
            final(self).size() == old(self).size(),
            is_listing(
                final(self).merged(),
                final(self).static_set().union(final(self).docker_set()),
            ),
            final(self).balancer@ == balancer::reloaded(
                old(self).balancer@,
                final(self).merged(),
                old(self).balancer.next(),
            ),
            final(self).balancer.next() == old(self).balancer.next() + balancer::newcomers(
                old(self).balancer@,
                final(self).merged(),
            ),
    {
        let mut combined: Vec<String> = Vec::new();
        insert_all(&mut combined, &self.static_targets);
        proof {
            assert(text::texts(combined@).to_set() =~= self.static_set());
        }
        insert_all(&mut combined, &self.docker_targets);
        proof {
            listing_is(
                text::texts(combined@),
                self.static_set().union(self.docker_set()),
            );
        }
        self.balancer.update_backends(combined);
    }
}

/// The rule for a line of the routes file: it names a target unless it is empty or
/// a comment.
pub open spec fn is_route(line: Seq<char>) -> bool {
    line.len() > 0 && line.first() != '#'
}

/// The lines of `content`, without the white space around them.
pub open spec fn trimmed_lines(content: Seq<char>) -> Seq<Seq<char>> {
    Seq::new(
        text::split_lines(content).len(),
        |i: int| text::trimmed(text::split_lines(content)[i]),
    )
}

/// The targets that the routes file lists.
pub open spec fn routes_in(content: Seq<char>) -> Seq<Seq<char>> {
    trimmed_lines(content).filter(|line: Seq<char>| is_route(line))
}

fn names_route(line: &String) -> (r: bool)
    ensures
        r == is_route(line@),
{
    let chars = chars_of(line.as_str());
    chars.len() > 0 && chars[0] != '#'
}

/// The targets that the routes file lists.
pub fn parse_routes(content: &str) -> (r: Vec<String>)
    ensures
        text::texts(r@) == routes_in(content@),
{
    let all = lines(content);
    let ghost trimmed = trimmed_lines(content@);
    let ghost keep = |line: Seq<char>| is_route(line);
    let mut r: Vec<String> = Vec::new();
    let mut i: usize = 0;
    proof {
        reveal(Seq::filter);
        assert(trimmed.take(0) =~= Seq::empty());
        assert(text::texts(r@) =~= trimmed.take(0).filter(keep));
    }
    while i < all.len()
        invariant
            text::texts(all@) == text::split_lines(content@),
            trimmed == trimmed_lines(content@),
            keep == |line: Seq<char>| is_route(line),
            i <= all@.len() == trimmed.len(),
            text::texts(r@) == trimmed.take(i as int).filter(keep),
        decreases all@.len() - i,
    {
        let ghost before = text::texts(r@);
        let line = trim(all[i].as_str());
        proof {
            reveal(Seq::filter);
            assert(text::texts(all@)[i as int] == all@[i as int]@);
            assert(line@ == trimmed[i as int]);
            assert(trimmed.take(i + 1).drop_last() =~= trimmed.take(i as int));
            assert(trimmed.take(i + 1).last() == line@);
        }
        if names_route(&line) {
            r.push(line);
            proof {
                assert(text::texts(r@) =~= before.push(line@));
            }
        }
        i = i + 1;
    }
    proof {
        assert(trimmed.take(i as int) =~= trimmed);
    }
    r
}

/// What was last read from the routes file.
pub struct StaticRoutes {
    last_content: String,
}

impl View for StaticRoutes {
    type V = Seq<char>;

    closed spec fn view(&self) -> Seq<char> {
        self.last_content@
    }
}

impl StaticRoutes {
    /// Nothing has been read.
    pub fn new() -> (r: StaticRoutes)
        ensures
            r@ == ""@,
    {
        StaticRoutes { last_content: "".to_owned() }
    }

    /// Takes a reading of the file, `None` if it could not be read. Gives the targets
    /// exactly if the content has changed.
    pub fn read(&mut self, content: Option<String>) -> (r: Option<Vec<String>>)
        ensures
            match content {
                Some(content) if content@ != old(self)@ => {
                    &&& r is Some
                    &&& text::texts(r->0@) == routes_in(content@)
                    &&& final(self)@ == content@
                },
                _ => r is None && final(self)@ == old(self)@,
            },
    {
        match content {
            Some(content) => {
                if content == self.last_content {
                    None
                } else {
                    let targets = parse_routes(content.as_str());
                    self.last_content = content;
                    Some(targets)
                }
            },
            None => None,
        }
    }
}

/// The table does not depend on the order in which a provider lists its targets,
/// nor on how often it lists one.
pub proof fn table_ignores_order(a: Seq<Seq<char>>, b: Seq<Seq<char>>, others: Set<Seq<char>>)
    requires
        forall|s: Seq<char>| a.contains(s) <==> b.contains(s),
    ensures
        listing(a.to_set().union(others)) == listing(b.to_set().union(others)),
{
    assert(a.to_set() =~= b.to_set());
}

/// The providers can announce in either order: the table ends with the same addresses,
/// the ascending list of all that either announced. Where one provider withdraws its
/// targets, those of the other stay, with their health and their connections. This
/// holds whatever counters fresh backends are given.
pub proof fn providers_can_come_in_either_order(
    table: Seq<balancer::BackendView>,
    next: u64,
    announced: Seq<Seq<char>>,
    discovered: Seq<Seq<char>>,
    after_static: u64,
    after_docker: u64,
    after_both: u64,
)
    ensures
        ({
            let a = announced.to_set();
            let d = discovered.to_set();
            let both = listing(a.union(d));
            let static_first = balancer::reloaded(
                balancer::reloaded(table, listing(a.union(Set::empty())), next),
                both,
                after_static,
            );
            let docker_first = balancer::reloaded(
                balancer::reloaded(table, listing(Set::empty().union(d)), next),
                both,
                after_docker,
            );
            let withdrawn = balancer::reloaded(
                static_first,
                listing(a.union(Set::empty())),
                after_both,
            );
            &&& is_listing(both, a.union(d))
            &&& balancer::addresses_of(static_first) == both
            &&& balancer::addresses_of(docker_first) == both
            &&& is_listing(listing(a.union(Set::empty())), a)
            &&& balancer::addresses_of(withdrawn) == listing(a.union(Set::empty()))
            &&& forall|i: int|
                0 <= i < withdrawn.len() ==> balancer::listed(
                    static_first,
                    (#[trigger] withdrawn[i]).address,
                ) && withdrawn[i] == static_first[balancer::place(
                    static_first,
                    withdrawn[i].address,
                )]
        }),
{
    let a = announced.to_set();
    let d = discovered.to_set();
    let all = announced + discovered;
    assert(a.union(Set::empty()) =~= a);
    assert(all.to_set() =~= a.union(d)) by {
        assert forall|s: Seq<char>| all.to_set().contains(s) == a.union(d).contains(s) by {
            if announced.contains(s) {
                let i = choose|i: int| 0 <= i < announced.len() && announced[i] == s;
                assert(all[i] == s);
            }
            if discovered.contains(s) {
                let i = choose|i: int| 0 <= i < discovered.len() && discovered[i] == s;
                assert(all[announced.len() + i] == s);
            }
            if all.contains(s) {
                let i = choose|i: int| 0 <= i < all.len() && all[i] == s;
                if i < announced.len() {
                    assert(announced[i] == s);
                } else {
                    assert(discovered[i - announced.len()] == s);
                }
            }
        }
    }
    listing_exists(all);
    listing_exists(announced);
    let both = listing(a.union(d));
    let only = listing(a.union(Set::empty()));
    let first = balancer::reloaded(table, only, next);
    let other = balancer::reloaded(table, listing(Set::empty().union(d)), next);
    let static_first = balancer::reloaded(first, both, after_static);
    balancer::reload_lists_the_addresses(first, both, after_static);
    balancer::reload_lists_the_addresses(other, both, after_docker);
    let withdrawn = balancer::reloaded(static_first, only, after_both);
    balancer::reload_lists_the_addresses(static_first, only, after_both);
    assert forall|i: int| 0 <= i < withdrawn.len() implies balancer::listed(
        static_first,
        (#[trigger] withdrawn[i]).address,
    ) && withdrawn[i] == static_first[balancer::place(static_first, withdrawn[i].address)] by {
        let address = only[i];
        balancer::reload_keeps_known_backends(static_first, only, after_both, i);
        assert(only.to_set().contains(address));
        assert(both.to_set().contains(address));
        let k = choose|k: int| 0 <= k < both.len() && both[k] == address;
        assert(balancer::addresses_of(static_first)[k] == address);
        balancer::place_is_first(static_first, address);
    }
}

/// In an ascending list nothing stands twice.
pub proof fn ascending_has_no_duplicates(list: Seq<Seq<char>>)
    requires
        ascending(list),
    ensures
        list.no_duplicates(),
{
    assert forall|i: int, j: int| 0 <= i < list.len() && 0 <= j < list.len() && i != j implies
        list[i] != list[j] by {
        if i < j {
            assert(text::precedes(list[i], list[j]));
            text::precedes_irreflexive(list[i]);
        } else {
            assert(text::precedes(list[j], list[i]));
            text::precedes_irreflexive(list[j]);
        }
    }
}

/// Comments and blank lines never become targets.
pub proof fn routes_are_no_comments(content: Seq<char>, i: int)
    requires
        0 <= i < routes_in(content).len(),
    ensures
        routes_in(content)[i].len() > 0,
        routes_in(content)[i].first() != '#',
{
    let keep = |line: Seq<char>| is_route(line);
    trimmed_lines(content).lemma_filter_pred(keep, i);
    assert(keep(routes_in(content)[i]));
}

/// The routes are the lines that hold something other than a comment, without the white
/// space around them: each such line is a route, and each route is such a line.
pub proof fn routes_are_the_lines_of_the_file(
    content: &str,
    routes: Vec<String>,
    route: Seq<char>,
)
    requires
        call_ensures(parse_routes, (content,), routes),
    ensures
        text::texts(routes@).contains(route) <==> route.len() > 0 && route[0] != '#' && exists|i: int|
            0 <= i < text::split_lines(content@).len() && text::trimmed(
                #[trigger] text::split_lines(content@)[i],
            ) == route,
        routes@.len() <= text::split_lines(content@).len(),
{
    let keep = |line: Seq<char>| is_route(line);
    let all = trimmed_lines(content@);
    let lines = text::split_lines(content@);
    all.lemma_filter_len(keep);
    assert(text::texts(routes@).len() == routes@.len());
    if text::texts(routes@).contains(route) {
        let k = choose|k: int|
            0 <= k < text::texts(routes@).len() && text::texts(routes@)[k] == route;
        all.lemma_filter_pred(keep, k);
        all.lemma_filter_contains_rev(keep, route);
        let i = choose|i: int| 0 <= i < all.len() && all[i] == route;
        assert(text::trimmed(lines[i]) == route);
    }
    if route.len() > 0 && route[0] != '#' && exists|i: int|
        0 <= i < lines.len() && text::trimmed(#[trigger] lines[i]) == route {
        let i = choose|i: int| 0 <= i < lines.len() && text::trimmed(#[trigger] lines[i]) == route;
        assert(all[i] == route);
        assert(keep(all[i]));
        all.lemma_filter_contains(keep, i);
    }
}

/// The merged list holds exactly the targets that a provider announced, each once, in
/// ascending order.
pub proof fn merged_list_holds_every_target(
    registry: ProviderRegistry,
    target: Seq<char>,
)
    ensures
        registry.merged().contains(target) <==> text::texts(
            registry.static_targets@,
        ).contains(target) || text::texts(registry.docker_targets@).contains(target),
        registry.merged().no_duplicates(),
        forall|i: int, j: int|
            0 <= i < j < registry.merged().len() ==> text::precedes(
                #[trigger] registry.merged()[i],
                #[trigger] registry.merged()[j],
            ),
{
    let a = text::texts(registry.static_targets@);
    let d = text::texts(registry.docker_targets@);
    let all = a + d;
    assert forall|s: Seq<char>| all.to_set().contains(s) == a.to_set().union(
        d.to_set(),
    ).contains(s) by {
        if a.contains(s) {
            let i = choose|i: int| 0 <= i < a.len() && a[i] == s;
            assert(all[i] == s);
        }
        if d.contains(s) {
            let i = choose|i: int| 0 <= i < d.len() && d[i] == s;
            assert(all[a.len() + i] == s);
        }
        if all.contains(s) {
            let i = choose|i: int| 0 <= i < all.len() && all[i] == s;
            if i < a.len() {
                assert(a[i] == s);
            } else {
                assert(d[i - a.len()] == s);
            }
        }
    }
    assert(all.to_set() =~= a.to_set().union(d.to_set()));
    listing_exists(all);
    let merged = registry.merged();
    assert(is_listing(merged, a.to_set().union(d.to_set())));
    ascending_has_no_duplicates(merged);
    assert(merged.contains(target) <==> merged.to_set().contains(target));
}

/// What an announcement of the static provider leaves: the table holds the targets that it
/// announced and those of the container provider, and no others, in ascending order.
pub proof fn static_announcement_is_routed(
    registry: &mut ProviderRegistry,
    targets: Vec<String>,
    s: Seq<char>,
)
    requires
        call_ensures(ProviderRegistry::update_static, (registry, targets), ()),
    ensures
        balancer::addresses_of(final(registry).balancer@).contains(s) <==> text::texts(
            targets@).contains(s) || text::texts(old(registry).docker_targets@).contains(s),
        text::texts(final(registry).static_targets@).contains(s) <==> text::texts(
            targets@).contains(s),
        text::texts(final(registry).docker_targets@).contains(s) <==> text::texts(
            old(registry).docker_targets@).contains(s),
        forall|i: int, j: int|
            0 <= i < j < final(registry).balancer@.len() ==> text::precedes(
                (#[trigger] final(registry).balancer@[i]).address,
                (#[trigger] final(registry).balancer@[j]).address,
            ),
{
    let merged = final(registry).merged();
    let table = old(registry).balancer@;
    let next = old(registry).balancer.next();
    balancer::reload_lists_the_addresses(table, merged, next);
    assert(merged.contains(s) <==> merged.to_set().contains(s));
    let after = final(registry).balancer@;
    assert forall|i: int, j: int| 0 <= i < j < after.len() implies text::precedes(
        (#[trigger] after[i]).address,
        (#[trigger] after[j]).address,
    ) by {
        assert(balancer::addresses_of(after)[i] == merged[i]);
        assert(balancer::addresses_of(after)[j] == merged[j]);
    }
    let a = text::texts(final(registry).static_targets@);
    let d = text::texts(final(registry).docker_targets@);
    assert(a.contains(s) <==> a.to_set().contains(s));
    assert(d.contains(s) <==> d.to_set().contains(s));
    assert(text::texts(targets@).contains(s) <==> text::texts(targets@).to_set().contains(s));
    let e = text::texts(old(registry).docker_targets@);
    assert(e.contains(s) <==> e.to_set().contains(s));
}

/// What an announcement of the container provider leaves: the table holds the targets that
/// it announced and those of the static provider, and no others, in ascending order.
pub proof fn docker_announcement_is_routed(
    registry: &mut ProviderRegistry,
    targets: Vec<String>,
    s: Seq<char>,
)
    requires
        call_ensures(ProviderRegistry::update_docker, (registry, targets), ()),
    ensures
        balancer::addresses_of(final(registry).balancer@).contains(s) <==> text::texts(
            targets@).contains(s) || text::texts(old(registry).static_targets@).contains(s),
        text::texts(final(registry).docker_targets@).contains(s) <==> text::texts(
            targets@).contains(s),
        text::texts(final(registry).static_targets@).contains(s) <==> text::texts(
            old(registry).static_targets@).contains(s),
        forall|i: int, j: int|
            0 <= i < j < final(registry).balancer@.len() ==> text::precedes(
                (#[trigger] final(registry).balancer@[i]).address,
                (#[trigger] final(registry).balancer@[j]).address,
            ),
{
    let merged = final(registry).merged();
    let table = old(registry).balancer@;
    let next = old(registry).balancer.next();
    balancer::reload_lists_the_addresses(table, merged, next);
    assert(merged.contains(s) <==> merged.to_set().contains(s));
    let after = final(registry).balancer@;
    assert forall|i: int, j: int| 0 <= i < j < after.len() implies text::precedes(
        (#[trigger] after[i]).address,
        (#[trigger] after[j]).address,
    ) by {
        assert(balancer::addresses_of(after)[i] == merged[i]);
        assert(balancer::addresses_of(after)[j] == merged[j]);
    }
    let a = text::texts(final(registry).static_targets@);
    let d = text::texts(final(registry).docker_targets@);
    assert(a.contains(s) <==> a.to_set().contains(s));
    assert(d.contains(s) <==> d.to_set().contains(s));
    assert(text::texts(targets@).contains(s) <==> text::texts(targets@).to_set().contains(s));
    let e = text::texts(old(registry).static_targets@);
    assert(e.contains(s) <==> e.to_set().contains(s));
}

/// The routes come in the order of the file: a line that names one gives the route whose
/// place is the number of such lines before it, and there are as many as such lines.
pub proof fn routes_are_in_the_order_of_the_file(content: &str, routes: Vec<String>, i: int)
    requires
        call_ensures(parse_routes, (content,), routes),
        0 <= i < text::split_lines(content@).len(),
        text::trimmed(text::split_lines(content@)[i]).len() > 0,
        text::trimmed(text::split_lines(content@)[i])[0] != '#',
    ensures
        ({
            let lines = text::split_lines(content@);
            let all = Seq::new(lines.len(), |k: int| text::trimmed(lines[k]));
            let rule = |line: Seq<char>| line.len() > 0 && line[0] != '#';
            let before = all.take(i).filter(rule).len() as int;
            &&& routes@.len() == all.filter(rule).len()
            &&& before < routes@.len()
            &&& routes@[before]@ == text::trimmed(lines[i])
        }),
{
    let keep = |line: Seq<char>| is_route(line);
    let rule = |line: Seq<char>| line.len() > 0 && line[0] != '#';
    let lines = text::split_lines(content@);
    let all = Seq::new(lines.len(), |k: int| text::trimmed(lines[k]));
    assert(all =~= trimmed_lines(content@));
    lists::same_rule(all, keep, rule);
    lists::kept_in_place(all, rule, i);
    assert(text::texts(routes@).len() == routes@.len());
    assert(text::texts(routes@)[all.take(i).filter(rule).len() as int] == routes@[all.take(
        i,
    ).filter(rule).len() as int]@);
}

/// What a reading of the routes file leaves: one that differs from the last gives its
/// routes and is kept; one that does not, or that failed, gives nothing and changes nothing.
pub proof fn changed_file_is_taken_over(
    routes: &mut StaticRoutes,
    content: Option<String>,
    targets: Option<Vec<String>>,
)
    requires
        call_ensures(StaticRoutes::read, (routes, content), targets),
    ensures
        targets is Some <==> content is Some && content->0@ != old(routes)@,
        targets is Some ==> final(routes)@ == content->0@ && text::texts(targets->0@)
            == routes_in(content->0@),
        targets is None ==> final(routes)@ == old(routes)@,
{
}

/// A registry begins without targets, and with the table that it is given; it has room as
/// long as a counter is left for every target.
pub proof fn registry_begins_without_targets(
    table: LeastConnections,
    registry: ProviderRegistry,
    more: usize,
    room: bool,
    s: Seq<char>,
)
    requires
        call_ensures(ProviderRegistry::new, (table,), registry),
        call_ensures(ProviderRegistry::has_room, (&registry, more), room),
    ensures
        registry.balancer == table,
        !text::texts(registry.static_targets@).contains(s),
        !text::texts(registry.docker_targets@).contains(s),
        room <==> table.next() + more <= u64::MAX,
{
    let a = text::texts(registry.static_targets@);
    let d = text::texts(registry.docker_targets@);
    assert(a.contains(s) <==> a.to_set().contains(s));
    assert(d.contains(s) <==> d.to_set().contains(s));
}

} // verus!
