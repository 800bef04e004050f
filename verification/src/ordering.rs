//! Putting things in the order of their names.

use vstd::prelude::*;

use crate::text::{chars_of, texts};

verus! {

/// Whether `a` stands before `b` or is the same, character by character.
pub open spec fn precedes(a: Seq<char>, b: Seq<char>) -> bool
    decreases a.len(),
{
    if a.len() == 0 {
        true
    } else if b.len() == 0 {
        false
    } else if a[0] == b[0] {
        precedes(a.skip(1), b.skip(1))
    } else {
        a[0] < b[0]
    }
}

/// Every text precedes itself.
pub proof fn precedes_reflexive(a: Seq<char>)
    ensures
        precedes(a, a),
    decreases a.len(),
{
    if a.len() > 0 {
        precedes_reflexive(a.skip(1));
    }
}

/// Of two texts one precedes the other.
pub proof fn precedes_total(a: Seq<char>, b: Seq<char>)
    ensures
        precedes(a, b) || precedes(b, a),
    decreases a.len(),
{
    if a.len() > 0 && b.len() > 0 && a[0] == b[0] {
        precedes_total(a.skip(1), b.skip(1));
    }
}

/// What precedes something precedes all that it precedes.
pub proof fn precedes_transitive(a: Seq<char>, b: Seq<char>, c: Seq<char>)
    requires
        precedes(a, b),
        precedes(b, c),
    ensures
        precedes(a, c),
    decreases a.len(),
{
    if a.len() > 0 && b.len() > 0 && c.len() > 0 && a[0] == b[0] && b[0] == c[0] {
        precedes_transitive(a.skip(1), b.skip(1), c.skip(1));
    }
}

/// Where `key` belongs among `keys`: behind the last that precedes it.
pub open spec fn place(keys: Seq<Seq<char>>, key: Seq<char>) -> int
    decreases keys.len(),
{
    if keys.len() == 0 {
        0
    } else if precedes(keys.last(), key) {
        keys.len() as int
    } else {
        place(keys.drop_last(), key)
    }
}

/// `items` in the order of their `keys`; where keys are the same, in the order
/// in which they came.
pub open spec fn arranged<A>(keys: Seq<Seq<char>>, items: Seq<A>) -> (Seq<Seq<char>>, Seq<A>)
    decreases keys.len(),
{
    if keys.len() == 0 || items.len() == 0 {
        (Seq::empty(), Seq::empty())
    } else {
        let (before, values) = arranged(keys.drop_last(), items.drop_last());
        let at = place(before, keys.last());
        (before.insert(at, keys.last()), values.insert(at, items.last()))
    }
}

/// Whether each key precedes all behind it.
pub open spec fn in_order(keys: Seq<Seq<char>>) -> bool {
    forall|i: int, j: int|
        0 <= i <= j < keys.len() ==> precedes(#[trigger] keys[i], #[trigger] keys[j])
}

proof fn lemma_place(keys: Seq<Seq<char>>, key: Seq<char>)
    ensures
        0 <= place(keys, key) <= keys.len(),
        forall|i: int| place(keys, key) <= i < keys.len() ==> !precedes(#[trigger] keys[i], key),
        place(keys, key) > 0 ==> precedes(keys[place(keys, key) - 1], key),
    decreases keys.len(),
{
    if keys.len() > 0 && !precedes(keys.last(), key) {
        lemma_place(keys.drop_last(), key);
        assert forall|i: int| place(keys, key) <= i < keys.len() implies !precedes(
            #[trigger] keys[i],
            key,
        ) by {
            if i < keys.len() - 1 {
                assert(keys.drop_last()[i] == keys[i]);
            }
        }
    }
}

proof fn lemma_insert_in_order(keys: Seq<Seq<char>>, key: Seq<char>)
    requires
        in_order(keys),
    ensures
        in_order(keys.insert(place(keys, key), key)),
{
    let at = place(keys, key);
    let after = keys.insert(at, key);
    lemma_place(keys, key);
    assert forall|i: int, j: int| 0 <= i <= j < after.len() implies precedes(
        #[trigger] after[i],
        #[trigger] after[j],
    ) by {
        if i == at && j == at {
            precedes_reflexive(key);
        } else if i == at {
            precedes_total(keys[j - 1], key);
        } else if j == at {
            assert(precedes(keys[i], keys[at - 1]));
            precedes_transitive(keys[i], keys[at - 1], key);
        } else {
            let a = if i < at { i } else { i - 1 };
            let b = if j < at { j } else { j - 1 };
            assert(precedes(keys[a], keys[b]));
        }
    }
}

/// Arranging puts the keys in order, and keeps every item with its key.
pub proof fn arranged_in_order<A>(keys: Seq<Seq<char>>, items: Seq<A>)
    requires
        keys.len() == items.len(),
    ensures
        in_order(arranged(keys, items).0),
        arranged(keys, items).0.len() == keys.len(),
        arranged(keys, items).1.len() == items.len(),
        arranged(keys, items).1.to_multiset() == items.to_multiset(),
        forall|i: int|
            0 <= i < keys.len() ==> exists|j: int|
                0 <= j < keys.len() && keys[j] == #[trigger] arranged(keys, items).0[i] && items[j]
                    == arranged(keys, items).1[i],
    decreases keys.len(),
{
    if keys.len() > 0 {
        let (before, values) = arranged(keys.drop_last(), items.drop_last());
        arranged_in_order(keys.drop_last(), items.drop_last());
        lemma_insert_in_order(before, keys.last());
        lemma_place(before, keys.last());
        let at = place(before, keys.last());
        let (all, found) = arranged(keys, items);
        assert(items =~= items.drop_last().push(items.last()));
        vstd::seq_lib::to_multiset_insert(values, at, items.last());
        vstd::seq_lib::to_multiset_build(items.drop_last(), items.last());
        assert forall|i: int| 0 <= i < keys.len() implies exists|j: int|
            0 <= j < keys.len() && keys[j] == #[trigger] all[i] && items[j] == found[i] by {
            if i == at {
                assert(keys[keys.len() - 1] == all[i] && items[keys.len() - 1] == found[i]);
            } else {
                let k = if i < at { i } else { i - 1 };
                assert(all[i] == before[k] && found[i] == values[k]);
                let j = choose|j: int|
                    0 <= j < keys.drop_last().len() && keys.drop_last()[j] == before[k]
                        && items.drop_last()[j] == values[k];
                assert(keys[j] == all[i] && items[j] == found[i]);
            }
        }
    } else {
        assert(arranged(keys, items).1 =~= items);
    }
}

/// Items whose keys are the same keep their order: arranging the numbers of the
/// items leaves those of equal keys ascending.
pub proof fn arranged_is_stable(keys: Seq<Seq<char>>)
    ensures
        ({
            let (all, numbers) = arranged(keys, Seq::new(keys.len(), |i: int| i));
            &&& all.len() == keys.len() == numbers.len()
            &&& forall|i: int, j: int|
                0 <= i < j < all.len() && all[i] == all[j] ==> #[trigger] numbers[i]
                    < #[trigger] numbers[j]
            &&& forall|i: int| 0 <= i < numbers.len() ==> 0 <= #[trigger] numbers[i] < keys.len()
        }),
    decreases keys.len(),
{
    if keys.len() > 0 {
        let n = keys.len() as int;
        let ids = Seq::new(keys.len(), |i: int| i);
        let rest = keys.drop_last();
        assert(ids.drop_last() =~= Seq::new(rest.len(), |i: int| i));
        arranged_is_stable(rest);
        let (before, values) = arranged(rest, ids.drop_last());
        let key = keys.last();
        let at = place(before, key);
        lemma_place(before, key);
        let (all, numbers) = arranged(keys, ids);
        assert forall|i: int| 0 <= i < numbers.len() implies 0 <= #[trigger] numbers[i] < n by {
            if i != at {
                assert(numbers[i] == values[if i < at { i } else { i - 1 }]);
            }
        }
        assert forall|i: int, j: int|
            0 <= i < j < all.len() && all[i] == all[j] implies #[trigger] numbers[i]
            < #[trigger] numbers[j] by {
            let a = if i < at { i } else { i - 1 };
            let b = if j < at { j } else { j - 1 };
            if i == at {
                precedes_reflexive(key);
                assert(!precedes(before[j - 1], key));
            } else if j == at {
                assert(numbers[i] == values[i]);
            } else {
                assert(all[i] == before[a] && all[j] == before[b]);
                assert(values[a] < values[b]);
            }
        }
    }
}

/// Whether `a` stands before `b` or is the same.
pub fn is_before(a: &[char], b: &[char]) -> (res: bool)
    ensures
        res == precedes(a@, b@),
{
    let mut i: usize = 0;
    assert(a@.skip(0) =~= a@);
    assert(b@.skip(0) =~= b@);
    while i < a.len() && i < b.len()
        invariant
            i <= a@.len(),
            i <= b@.len(),
            precedes(a@, b@) == precedes(a@.skip(i as int), b@.skip(i as int)),
        decreases a@.len() - i,
    {
        let ghost p = a@.skip(i as int);
        let ghost q = b@.skip(i as int);
        assert(p[0] == a@[i as int] && q[0] == b@[i as int]);
        if a[i] != b[i] {
            return a[i] < b[i];
        }
        assert(p.skip(1) =~= a@.skip(i + 1));
        assert(q.skip(1) =~= b@.skip(i + 1));
        i += 1;
    }
    i == a.len()
}

/// Where `key` belongs among `keys`.
pub fn place_of(keys: &Vec<String>, key: &str) -> (at: usize)
    ensures
        at == place(texts(keys@), key@),
        at <= keys@.len(),
{
    let wanted = chars_of(key);
    let mut n = keys.len();
    assert(texts(keys@).take(n as int) =~= texts(keys@));
    while n > 0
        invariant
            wanted@ == key@,
            n <= keys@.len(),
            place(texts(keys@), key@) == place(texts(keys@).take(n as int), key@),
        decreases n,
    {
        let other = chars_of(keys[n - 1].as_str());
        proof {
            let shown = texts(keys@).take(n as int);
            assert(shown.last() == keys@[n - 1]@);
            assert(shown.drop_last() =~= texts(keys@).take(n - 1));
        }
        if is_before(other.as_slice(), wanted.as_slice()) {
            return n;
        }
        n -= 1;
    }
    n
}

} // verus!
