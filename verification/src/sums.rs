//! Sums over the entries of a finite map.

use vstd::arithmetic::div_mod::{lemma_fundamental_div_mod, lemma_fundamental_div_mod_converse};
use vstd::prelude::*;
use vstd::set::fold::{lemma_fold_empty, lemma_fold_insert};

verus! {

/// The sum of the sizes of the items of a set.
pub open spec fn sum_over<K>(items: Set<K>, size: spec_fn(K) -> nat) -> nat {
    items.fold(0nat, |sum: nat, item: K| sum + size(item))
}

/// The sum of the values of a map.
pub open spec fn total<K>(sizes: Map<K, nat>) -> nat {
    sum_over(sizes.dom(), |key: K| sizes[key])
}

/// An item that joins a set adds its size.
proof fn lemma_sum_insert<K>(items: Set<K>, size: spec_fn(K) -> nat, item: K)
    requires
        items.finite(),
        !items.contains(item),
    ensures
        sum_over(items.insert(item), size) == sum_over(items, size) + size(item),
{
    lemma_fold_insert(items, 0nat, |sum: nat, x: K| sum + size(x), item);
}

/// Only the sizes of the items of a set count.
proof fn lemma_sum_same<K>(items: Set<K>, size: spec_fn(K) -> nat, other: spec_fn(K) -> nat)
    requires
        items.finite(),
        forall|item: K| items.contains(item) ==> #[trigger] size(item) == other(item),
    ensures
        sum_over(items, size) == sum_over(items, other),
    decreases items.len(),
{
    if items.len() == 0 {
        assert(items =~= Set::empty());
        lemma_fold_empty(0nat, |sum: nat, x: K| sum + size(x));
        lemma_fold_empty(0nat, |sum: nat, x: K| sum + other(x));
    } else {
        let item = items.choose();
        let rest = items.remove(item);
        assert(items =~= rest.insert(item));
        lemma_sum_same(rest, size, other);
        lemma_sum_insert(rest, size, item);
        lemma_sum_insert(rest, other, item);
        assert(size(item) == other(item));
    }
}

/// The sum over no entries.
pub proof fn lemma_total_empty<K>(sizes: Map<K, nat>)
    requires
        sizes.dom() == Set::<K>::empty(),
    ensures
        total(sizes) == 0,
{
    let size = |key: K| sizes[key];
    lemma_fold_empty(0nat, |sum: nat, x: K| sum + size(x));
}

/// The sum with and without an entry.
pub proof fn lemma_total_remove<K>(sizes: Map<K, nat>, key: K)
    requires
        sizes.dom().finite(),
        sizes.contains_key(key),
    ensures
        total(sizes) == total(sizes.remove(key)) + sizes[key],
{
    let rest = sizes.remove(key);
    let size = |k: K| sizes[k];
    assert(sizes.dom() =~= rest.dom().insert(key));
    lemma_sum_insert(rest.dom(), size, key);
    lemma_sum_same(rest.dom(), size, |k: K| rest[k]);
}

/// The sum after an entry is set.
pub proof fn lemma_total_insert<K>(sizes: Map<K, nat>, key: K, n: nat)
    requires
        sizes.dom().finite(),
    ensures
        total(sizes.insert(key, n)) == total(sizes.remove(key)) + n,
{
    lemma_total_remove(sizes.insert(key, n), key);
    assert(sizes.insert(key, n).remove(key) =~= sizes.remove(key));
}

/// The sum over some of the entries is no more than the sum over all.
pub proof fn lemma_total_within<K>(part: Map<K, nat>, sizes: Map<K, nat>)
    requires
        sizes.dom().finite(),
        part.dom().finite(),
        forall|key: K| #[trigger]
            part.contains_key(key) ==> sizes.contains_key(key) && part[key] <= sizes[key],
    ensures
        total(part) <= total(sizes),
    decreases part.dom().len(),
{
    if part.dom().len() == 0 {
        assert(part.dom() =~= Set::empty());
        lemma_total_empty(part);
    } else {
        let key = part.dom().choose();
        assert(part.contains_key(key));
        lemma_total_remove(part, key);
        lemma_total_remove(sizes, key);
        lemma_total_within(part.remove(key), sizes.remove(key));
    }
}

/// The keys up to and with the one at `i`.
pub(crate) proof fn lemma_next_key<T>(keys: Seq<T>, i: int)
    requires
        keys.no_duplicates(),
        0 <= i < keys.len(),
    ensures
        !keys.take(i).to_set().contains(keys[i]),
        !keys.take(i).contains(keys[i]),
        forall|k: T| #[trigger]
            keys.take(i + 1).contains(k) <==> keys.take(i).contains(k) || k == keys[i],
        keys.take(i + 1).to_set() == keys.take(i).to_set().insert(keys[i]),
        keys.take(i).to_set().finite(),
        keys.take(i + 1).to_set().finite(),
{
    let before = keys.take(i);
    let upto = keys.take(i + 1);
    assert forall|k: T| #[trigger]
        upto.to_set().contains(k) <==> before.to_set().insert(keys[i]).contains(k) by {
        if before.contains(k) {
            let j = choose|j: int| 0 <= j < i && before[j] == k;
            assert(upto[j] == k);
        }
        assert(upto[i] == keys[i]);
        if upto.contains(k) {
            let j = choose|j: int| 0 <= j <= i && upto[j] == k;
            assert(j < i ==> before[j] == k);
        }
    }
    assert(upto.to_set() =~= before.to_set().insert(keys[i]));
    assert forall|k: T| #[trigger] upto.contains(k) <==> before.contains(k) || k == keys[i] by {
        assert(upto.to_set().contains(k) <==> before.to_set().insert(keys[i]).contains(k));
    }
    before.lemma_cardinality_of_set();
    upto.lemma_cardinality_of_set();
}

/// The sum over the entries with the first `i` of the keys of a map, each listed once.
pub open spec fn total_of<K>(sizes: Map<K, nat>, keys: Seq<K>, i: int) -> nat {
    total(sizes.restrict(keys.take(i).to_set()))
}

/// Summing the entries of a map key by key gives the sum over the map.
pub(crate) proof fn lemma_total_of<K>(sizes: Map<K, nat>, keys: Seq<K>, i: int)
    requires
        sizes.dom().finite(),
        keys.no_duplicates(),
        keys.to_set() == sizes.dom(),
        0 <= i <= keys.len(),
    ensures
        total_of(sizes, keys, 0) == 0,
        total_of(sizes, keys, keys.len() as int) == total(sizes),
        i < keys.len() ==> {
            &&& sizes.contains_key(keys[i])
            &&& total_of(sizes, keys, i + 1) == total_of(sizes, keys, i) + sizes[keys[i]]
            &&& total_of(sizes, keys, i + 1) <= total(sizes)
        },
{
    assert(keys.take(0).to_set() =~= Set::empty());
    assert(sizes.restrict(keys.take(0).to_set()).dom() =~= Set::empty());
    lemma_total_empty(sizes.restrict(keys.take(0).to_set()));
    assert(keys.take(keys.len() as int) =~= keys);
    assert(sizes.restrict(keys.to_set()) =~= sizes);
    if i < keys.len() {
        lemma_next_key(keys, i);
        let seen = sizes.restrict(keys.take(i).to_set());
        let next = sizes.restrict(keys.take(i + 1).to_set());
        assert forall|j: int| 0 <= j < keys.len() implies sizes.contains_key(
            #[trigger] keys[j],
        ) by {
            assert(keys.to_set().contains(keys[j]));
        }
        assert(seen.dom() =~= keys.take(i).to_set());
        assert(next.dom() =~= keys.take(i + 1).to_set());
        assert(next =~= seen.insert(keys[i], sizes[keys[i]]));
        assert(seen.remove(keys[i]) =~= seen);
        lemma_total_insert(seen, keys[i], sizes[keys[i]]);
        lemma_total_within(next, sizes);
    }
}

/// A number as the machine counts: it begins anew where its numbers end.
pub open spec fn wrapped(n: nat) -> usize {
    (n as int % (usize::MAX + 1)) as usize
}

/// Numbers that the machine has are what they are, and counting on goes on.
pub proof fn lemma_wrapped(n: nat, more: usize)
    ensures
        n <= usize::MAX ==> wrapped(n) == n,
        wrapped(n + more as nat) == if wrapped(n) + more <= usize::MAX {
            wrapped(n) + more
        } else {
            wrapped(n) + more - usize::MAX - 1
        },
{
    let m = usize::MAX + 1;
    lemma_fundamental_div_mod(n as int, m);
    let q = n as int / m;
    let rest = n as int % m;
    if rest + more < m {
        lemma_fundamental_div_mod_converse(n + more, m, q, rest + more);
    } else {
        assert((q + 1) * m == q * m + m) by (nonlinear_arith);
        lemma_fundamental_div_mod_converse(n + more, m, q + 1, rest + more - m);
    }
    if n < m {
        lemma_fundamental_div_mod_converse(n as int, m, 0, n as int);
    }
}

} // verus!
