//! Where the items that a filter keeps stand.

use vstd::prelude::*;

verus! {

/// An item that is kept stands behind as many as were kept before it.
pub(crate) proof fn kept_in_place<A>(list: Seq<A>, keep: spec_fn(A) -> bool, i: int)
    requires
        0 <= i < list.len(),
        keep(list[i]),
    ensures
        list.take(i).filter(keep).len() < list.filter(keep).len(),
        list.filter(keep)[list.take(i).filter(keep).len() as int] == list[i],
{
    let head = list.take(i);
    let one = seq![list[i]];
    let tail = list.skip(i + 1);
    assert(list =~= head + (one + tail));
    Seq::filter_distributes_over_add(head, one + tail, keep);
    Seq::filter_distributes_over_add(one, tail, keep);
    assert(one.filter(keep) =~= one) by {
        reveal(Seq::filter);
        assert(one.drop_last() =~= Seq::empty());
    }
}

/// Two rules that agree keep the same items.
pub(crate) proof fn same_rule<A>(list: Seq<A>, a: spec_fn(A) -> bool, b: spec_fn(A) -> bool)
    requires
        forall|x: A| #[trigger] a(x) == b(x),
    ensures
        list.filter(a) == list.filter(b),
    decreases list.len(),
{
    reveal(Seq::filter);
    if list.len() > 0 {
        same_rule(list.drop_last(), a, b);
        assert(a(list.last()) == b(list.last()));
    }
}

/// To keep by one rule and then by another is to keep by both.
pub(crate) proof fn rules_combine<A>(
    list: Seq<A>,
    a: spec_fn(A) -> bool,
    b: spec_fn(A) -> bool,
    both: spec_fn(A) -> bool,
)
    requires
        forall|x: A| #[trigger] both(x) == (a(x) && b(x)),
    ensures
        list.filter(a).filter(b) == list.filter(both),
    decreases list.len(),
{
    reveal(Seq::filter);
    if list.len() > 0 {
        let init = list.drop_last();
        rules_combine(init, a, b, both);
        assert(both(list.last()) == (a(list.last()) && b(list.last())));
        if a(list.last()) {
            assert(init.filter(a).push(list.last()).drop_last() =~= init.filter(a));
        }
    }
}

} // verus!
