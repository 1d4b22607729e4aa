//! Lists of keys and values, no key twice.

use vstd::prelude::*;

verus! {

/// The texts in a list of pairs.
pub open spec fn pair_views(pairs: Seq<(String, String)>) -> Seq<(Seq<char>, Seq<char>)> {
    Seq::new(pairs.len(), |i: int| (pairs[i].0@, pairs[i].1@))
}

/// Where `key` first occurs in `pairs`; the length of `pairs` if it does not.
pub open spec fn place_of(pairs: Seq<(Seq<char>, Seq<char>)>, key: Seq<char>) -> int
    decreases pairs.len(),
{
    if pairs.len() == 0 || pairs.first().0 == key {
        0
    } else {
        1 + place_of(pairs.drop_first(), key)
    }
}

/// The value of `key`, where it occurs.
pub open spec fn value_of(pairs: Seq<(Seq<char>, Seq<char>)>, key: Seq<char>) -> Option<Seq<char>> {
    if place_of(pairs, key) < pairs.len() {
        Some(pairs[place_of(pairs, key)].1)
    } else {
        None
    }
}

/// The pairs after `key` has been given a value: in its place, or at the end.
pub open spec fn put(
    pairs: Seq<(Seq<char>, Seq<char>)>,
    key: Seq<char>,
    value: Seq<char>,
) -> Seq<(Seq<char>, Seq<char>)> {
    if place_of(pairs, key) < pairs.len() {
        pairs.update(place_of(pairs, key), (key, value))
    } else {
        pairs.push((key, value))
    }
}

/// The pairs without `key`.
pub open spec fn without(pairs: Seq<(Seq<char>, Seq<char>)>, key: Seq<char>) -> Seq<
    (Seq<char>, Seq<char>),
> {
    if place_of(pairs, key) < pairs.len() {
        pairs.remove(place_of(pairs, key))
    } else {
        pairs
    }
}

/// The values of `pairs`, in order.
pub open spec fn values(pairs: Seq<(Seq<char>, Seq<char>)>) -> Seq<Seq<char>> {
    Seq::new(pairs.len(), |i: int| pairs[i].1)
}

/// No key occurs twice.
pub open spec fn no_repeats(pairs: Seq<(Seq<char>, Seq<char>)>) -> bool {
    forall|i: int, j: int|
        0 <= i < j < pairs.len() ==> (#[trigger] pairs[i]).0 != (#[trigger] pairs[j]).0
}

/// What `pairs` map their keys to.
pub open spec fn as_map(pairs: Seq<(Seq<char>, Seq<char>)>) -> Map<Seq<char>, Seq<char>> {
    Map::new(
        |key: Seq<char>| place_of(pairs, key) < pairs.len(),
        |key: Seq<char>| pairs[place_of(pairs, key)].1,
    )
}

/// The place of a key is the first pair with that key.
pub proof fn place_is_first(pairs: Seq<(Seq<char>, Seq<char>)>, key: Seq<char>)
    ensures
        0 <= place_of(pairs, key) <= pairs.len(),
        place_of(pairs, key) < pairs.len() ==> pairs[place_of(pairs, key)].0 == key,
        forall|i: int| 0 <= i < place_of(pairs, key) ==> (#[trigger] pairs[i]).0 != key,
    decreases pairs.len(),
{
    if pairs.len() > 0 && pairs.first().0 != key {
        let rest = pairs.drop_first();
        place_is_first(rest, key);
        assert forall|i: int| 0 <= i < place_of(pairs, key) implies (#[trigger] pairs[i]).0
            != key by {
            if i > 0 {
                assert(rest[i - 1] == pairs[i]);
            }
        }
    }
}

proof fn place_is(pairs: Seq<(Seq<char>, Seq<char>)>, key: Seq<char>, i: int)
    requires
        0 <= i <= pairs.len(),
        i < pairs.len() ==> pairs[i].0 == key,
        forall|j: int| 0 <= j < i ==> (#[trigger] pairs[j]).0 != key,
    ensures
        place_of(pairs, key) == i,
{
    place_is_first(pairs, key);
    let p = place_of(pairs, key);
    if p < i {
        assert(pairs[p].0 != key);
    }
    if i < p {
        assert(pairs[i].0 != key);
    }
}

/// To put a value under a key is to map the key to the value.
pub proof fn put_maps_the_key(
    pairs: Seq<(Seq<char>, Seq<char>)>,
    key: Seq<char>,
    value: Seq<char>,
)
    requires
        no_repeats(pairs),
    ensures
        no_repeats(put(pairs, key, value)),
        as_map(put(pairs, key, value)) == as_map(pairs).insert(key, value),
{
    let after = put(pairs, key, value);
    place_is_first(pairs, key);
    let p = place_of(pairs, key);
    assert(no_repeats(after)) by {
        assert forall|i: int, j: int| 0 <= i < j < after.len() implies (#[trigger] after[i]).0 != (
        #[trigger] after[j]).0 by {
            if j < pairs.len() {
                assert(pairs[i].0 != pairs[j].0);
            } else {
                assert(pairs[i].0 != key);
            }
        }
    }
    assert forall|k: Seq<char>|
        #![trigger place_of(after, k)]
        (place_of(after, k) < after.len() <==> (place_of(pairs, k) < pairs.len() || k == key)) && (
        place_of(after, k) < after.len() ==> after[place_of(after, k)].1 == if k == key {
            value
        } else {
            pairs[place_of(pairs, k)].1
        }) by {
        place_is_first(pairs, k);
        let q = place_of(pairs, k);
        if k == key {
            assert forall|j: int| 0 <= j < p implies (#[trigger] after[j]).0 != key by {
                assert(after[j] == pairs[j]);
            }
            place_is(after, key, p);
        } else if q < pairs.len() {
            assert forall|j: int| 0 <= j < q implies (#[trigger] after[j]).0 != k by {
                assert(pairs[j].0 != k);
            }
            place_is(after, k, q);
        } else {
            assert forall|j: int| 0 <= j < after.len() implies (#[trigger] after[j]).0 != k by {
                if j < pairs.len() {
                    assert(pairs[j].0 != k);
                }
            }
            place_is(after, k, after.len() as int);
        }
    }
    assert(as_map(after) =~= as_map(pairs).insert(key, value)) by {
        assert forall|k: Seq<char>| as_map(after).contains_key(k) == as_map(pairs).insert(
            key,
            value,
        ).contains_key(k) by {
            assert(place_of(after, k) < after.len() <==> (place_of(pairs, k) < pairs.len() || k
                == key));
        }
        assert forall|k: Seq<char>| as_map(after).contains_key(k) implies as_map(after)[k]
            == as_map(pairs).insert(key, value)[k] by {
            assert(place_of(after, k) < after.len());
        }
    }
}

/// To remove a key is to map it to nothing.
pub proof fn without_unmaps_the_key(pairs: Seq<(Seq<char>, Seq<char>)>, key: Seq<char>)
    requires
        no_repeats(pairs),
    ensures
        no_repeats(without(pairs, key)),
        as_map(without(pairs, key)) == as_map(pairs).remove(key),
{
    let after = without(pairs, key);
    place_is_first(pairs, key);
    let p = place_of(pairs, key);
    if p < pairs.len() {
        assert forall|i: int, j: int| 0 <= i < j < after.len() implies (#[trigger] after[i]).0 != (
        #[trigger] after[j]).0 by {
            let x = if i < p { i } else { i + 1 };
            let y = if j < p { j } else { j + 1 };
            assert(pairs[x].0 != pairs[y].0);
        }
    }
    assert forall|k: Seq<char>|
        #![trigger place_of(after, k)]
        (place_of(after, k) < after.len() <==> (place_of(pairs, k) < pairs.len() && k != key)) && (
        place_of(after, k) < after.len() ==> after[place_of(after, k)].1 == pairs[place_of(
            pairs,
            k,
        )].1) by {
        place_is_first(pairs, k);
        place_is_first(after, k);
        let q = place_of(pairs, k);
        let r = place_of(after, k);
        if p < pairs.len() {
            if k == key {
                if r < after.len() {
                    let x = if r < p { r } else { r + 1 };
                    if x < p {
                        assert(pairs[x].0 != pairs[p].0);
                    } else {
                        assert(pairs[p].0 != pairs[x].0);
                    }
                }
            } else if q < pairs.len() {
                let x = if q < p { q } else { q - 1 };
                assert forall|j: int| 0 <= j < x implies (#[trigger] after[j]).0 != k by {
                    let y = if j < p { j } else { j + 1 };
                    assert(pairs[y].0 != k);
                }
                place_is(after, k, x);
            } else {
                assert forall|j: int| 0 <= j < after.len() implies (#[trigger] after[j]).0 != k by {
                    let y = if j < p { j } else { j + 1 };
                    assert(pairs[y].0 != k);
                }
                place_is(after, k, after.len() as int);
            }
        }
    }
    assert(as_map(after) =~= as_map(pairs).remove(key)) by {
        assert forall|k: Seq<char>| as_map(after).contains_key(k) == as_map(pairs).remove(
            key,
        ).contains_key(k) by {
            assert(place_of(after, k) < after.len() <==> (place_of(pairs, k) < pairs.len() && k
                != key));
        }
        assert forall|k: Seq<char>| as_map(after).contains_key(k) implies as_map(after)[k]
            == as_map(pairs).remove(key)[k] by {
            assert(place_of(after, k) < after.len());
        }
    }
}

/// Finds a key; the length of the list if it does not occur.
pub fn find_key(pairs: &Vec<(String, String)>, key: &str) -> (r: usize)
    ensures
        r == place_of(pair_views(pairs@), key@),
        r <= pairs@.len(),
        r < pairs@.len() ==> pairs@[r as int].0@ == key@,
{
    let ghost views = pair_views(pairs@);
    let mut i: usize = 0;
    while i < pairs.len()
        invariant
            i <= pairs@.len(),
            views == pair_views(pairs@),
            forall|j: int| 0 <= j < i ==> (#[trigger] views[j]).0 != key@,
        decreases pairs@.len() - i,
    {
        if crate::text::same_text(pairs[i].0.as_str(), key) {
            proof {
                assert(views[i as int].0 == key@);
                place_is(views, key@, i as int);
            }
            return i;
        }
        proof {
            assert(views[i as int].0 != key@);
        }
        i = i + 1;
    }
    proof {
        place_is(views, key@, i as int);
    }
    i
}

/// The value of a key, where it occurs.
pub fn get_value(pairs: &Vec<(String, String)>, key: &str) -> (r: Option<String>)
    ensures
        (match r {
            Some(value) => Some(value@),
            None => None,
        }) == value_of(pair_views(pairs@), key@),
{
    let i: usize = find_key(pairs, key);
    if i < pairs.len() {
        Some(pairs[i].1.clone())
    } else {
        None
    }
}

/// Gives a key a value: in its place, or at the end.
pub fn put_pair(pairs: &mut Vec<(String, String)>, key: String, value: String)
    ensures
        pair_views(final(pairs)@) == put(pair_views(old(pairs)@), key@, value@),
        final(pairs)@.len() > 0,
{
    let ghost before = pair_views(pairs@);
    let i: usize = find_key(pairs, key.as_str());
    if i < pairs.len() {
        pairs.set(i, (key, value));
        assert(pair_views(pairs@) =~= before.update(i as int, (key@, value@)));
    } else {
        pairs.push((key, value));
        assert(pair_views(pairs@) =~= before.push((key@, value@)));
    }
}

/// Removes a key; gives its value, where it occurred.
pub fn remove_key(pairs: &mut Vec<(String, String)>, key: &str) -> (r: Option<String>)
    ensures
        pair_views(final(pairs)@) == without(pair_views(old(pairs)@), key@),
        (match r {
            Some(value) => Some(value@),
            None => None,
        }) == value_of(pair_views(old(pairs)@), key@),
{
    let ghost before = pair_views(pairs@);
    let i: usize = find_key(pairs, key);
    if i < pairs.len() {
        let pair = pairs.remove(i);
        assert(pair_views(pairs@) =~= before.remove(i as int));
        Some(pair.1)
    } else {
        None
    }
}

/// Copies the values of a list of pairs.
pub fn copy_values(pairs: &Vec<(String, String)>) -> (r: Vec<String>)
    ensures
        crate::text::texts(r@) == values(pair_views(pairs@)),
{
    let ghost all = values(pair_views(pairs@));
    let mut r: Vec<String> = Vec::new();
    let mut i: usize = 0;
    proof {
        assert(crate::text::texts(r@) =~= all.take(0));
    }
    while i < pairs.len()
        invariant
            i <= pairs@.len(),
            all == values(pair_views(pairs@)),
            crate::text::texts(r@) == all.take(i as int),
        decreases pairs@.len() - i,
    {
        let ghost before = crate::text::texts(r@);
        r.push(pairs[i].1.clone());
        i = i + 1;
        proof {
            assert(crate::text::texts(r@) =~= before.push(all[i - 1]));
            assert(all.take(i as int) =~= before.push(all[i - 1]));
        }
    }
    proof {
        assert(all.take(i as int) =~= all);
    }
    r
}

/// The value of a key is that of the pair with the key, where no key occurs twice; a key
/// that no pair has, has no value.
pub proof fn value_is_that_of_the_pair(pairs: Seq<(Seq<char>, Seq<char>)>, key: Seq<char>, i: int)
    ensures
        no_repeats(pairs) && 0 <= i < pairs.len() && pairs[i].0 == key ==> value_of(pairs, key)
            == Some(pairs[i].1),
        value_of(pairs, key) matches Some(value) ==> pairs.contains((key, value)),
        value_of(pairs, key) is None <==> forall|k: int|
            0 <= k < pairs.len() ==> (#[trigger] pairs[k]).0 != key,
        value_of(pairs, key) is Some <==> as_map(pairs).contains_key(key),
        value_of(pairs, key) matches Some(value) ==> as_map(pairs)[key] == value,
{
    place_is_first(pairs, key);
    let p = place_of(pairs, key);
    if p < pairs.len() {
        assert(pairs[p] == (key, pairs[p].1));
    }
    if no_repeats(pairs) && 0 <= i < pairs.len() && pairs[i].0 == key {
        if p < i {
            assert(pairs[p].0 != pairs[i].0);
        } else if i < p {
            assert(pairs[i].0 != key);
        }
    }
}

/// The values of pairs are theirs, in order.
pub proof fn values_are_in_order(pairs: Seq<(Seq<char>, Seq<char>)>, i: int)
    requires
        0 <= i < pairs.len(),
    ensures
        values(pairs).len() == pairs.len(),
        values(pairs)[i] == pairs[i].1,
{
}

} // verus!
