//! Association sequences: the mathematical model of every aggregation
//! table in the engine.
//!
//! Each table is executed as a vector of key/value pairs with pairwise
//! distinct keys, kept in insertion order (reports break ties by that
//! order, so the order is part of the model).  The spec functions here
//! say what a lookup returns and how an insert-or-update rewrites the
//! sequence; the lemmas relate those definitions to the index-wise
//! updates the executable loops perform.

use vstd::prelude::*;

verus! {

/// The value stored under key `k`: the value of the first (and, with
/// `unique_keys`, only) pair whose key equals `k`.
pub open spec fn lookup<K, V>(s: Seq<(K, V)>, k: K) -> Option<V>
    decreases s.len(),
{
    if s.len() == 0 {
        None
    } else if s[0].0 == k {
        Some(s[0].1)
    } else {
        lookup(s.drop_first(), k)
    }
}

/// Insert-or-update: if `k` is present, apply `f` to the first value
/// stored under it; otherwise append `(k, init)` at the end.
pub open spec fn upsert<K, V>(s: Seq<(K, V)>, k: K, init: V, f: spec_fn(V) -> V) -> Seq<(K, V)>
    decreases s.len(),
{
    if s.len() == 0 {
        seq![(k, init)]
    } else if s[0].0 == k {
        seq![(s[0].0, f(s[0].1))] + s.drop_first()
    } else {
        seq![s[0]] + upsert(s.drop_first(), k, init, f)
    }
}

/// Like `upsert`, but a missing key leaves the sequence unchanged.
pub open spec fn update_if_present<K, V>(s: Seq<(K, V)>, k: K, f: spec_fn(V) -> V) -> Seq<(K, V)>
    decreases s.len(),
{
    if s.len() == 0 {
        s
    } else if s[0].0 == k {
        seq![(s[0].0, f(s[0].1))] + s.drop_first()
    } else {
        seq![s[0]] + update_if_present(s.drop_first(), k, f)
    }
}

/// No two pairs share a key.
pub open spec fn unique_keys<K, V>(s: Seq<(K, V)>) -> bool {
    forall|i: int, j: int| 0 <= i < j < s.len() ==> (#[trigger] s[i]).0 != (#[trigger] s[j]).0
}

/// An `upsert` whose key matches at index `i` (and nowhere earlier)
/// rewrites exactly that index.
pub proof fn lemma_upsert_found<K, V>(s: Seq<(K, V)>, k: K, init: V, f: spec_fn(V) -> V, i: int)
    requires
        0 <= i < s.len(),
        s[i].0 == k,
        forall|j: int| 0 <= j < i ==> (#[trigger] s[j]).0 != k,
    ensures
        upsert(s, k, init, f) == s.update(i, (k, f(s[i].1))),
    decreases s.len(),
{
    if i == 0 {
        assert(upsert(s, k, init, f) =~= s.update(0, (k, f(s[0].1))));
    } else {
        assert(s[0].0 != k);
        assert forall|j: int| 0 <= j < i - 1 implies (#[trigger] s.drop_first()[j]).0 != k by {
            assert(s.drop_first()[j] == s[j + 1]);
        }
        assert(s.drop_first()[i - 1] == s[i]);
        lemma_upsert_found(s.drop_first(), k, init, f, i - 1);
        assert(upsert(s, k, init, f) =~= s.update(i, (k, f(s[i].1))));
    }
}

/// An `upsert` whose key is absent appends the new pair.
pub proof fn lemma_upsert_absent<K, V>(s: Seq<(K, V)>, k: K, init: V, f: spec_fn(V) -> V)
    requires
        forall|j: int| 0 <= j < s.len() ==> (#[trigger] s[j]).0 != k,
    ensures
        upsert(s, k, init, f) == s.push((k, init)),
    decreases s.len(),
{
    if s.len() == 0 {
        assert(upsert(s, k, init, f) =~= s.push((k, init)));
    } else {
        assert forall|j: int| 0 <= j < s.drop_first().len() implies (#[trigger] s.drop_first()[j]).0
            != k by {
            assert(s.drop_first()[j] == s[j + 1]);
        }
        lemma_upsert_absent(s.drop_first(), k, init, f);
        assert(upsert(s, k, init, f) =~= s.push((k, init)));
    }
}

/// An `update_if_present` whose key matches at index `i` (and nowhere
/// earlier) rewrites exactly that index.
pub proof fn lemma_update_if_present_found<K, V>(
    s: Seq<(K, V)>,
    k: K,
    f: spec_fn(V) -> V,
    i: int,
)
    requires
        0 <= i < s.len(),
        s[i].0 == k,
        forall|j: int| 0 <= j < i ==> (#[trigger] s[j]).0 != k,
    ensures
        update_if_present(s, k, f) == s.update(i, (k, f(s[i].1))),
    decreases s.len(),
{
    if i == 0 {
        assert(update_if_present(s, k, f) =~= s.update(0, (k, f(s[0].1))));
    } else {
        assert(s[0].0 != k);
        assert forall|j: int| 0 <= j < i - 1 implies (#[trigger] s.drop_first()[j]).0 != k by {
            assert(s.drop_first()[j] == s[j + 1]);
        }
        assert(s.drop_first()[i - 1] == s[i]);
        lemma_update_if_present_found(s.drop_first(), k, f, i - 1);
        assert(update_if_present(s, k, f) =~= s.update(i, (k, f(s[i].1))));
    }
}

/// An `update_if_present` whose key is absent changes nothing.
pub proof fn lemma_update_if_present_absent<K, V>(s: Seq<(K, V)>, k: K, f: spec_fn(V) -> V)
    requires
        forall|j: int| 0 <= j < s.len() ==> (#[trigger] s[j]).0 != k,
    ensures
        update_if_present(s, k, f) == s,
    decreases s.len(),
{
    if s.len() == 0 {
        assert(update_if_present(s, k, f) =~= s);
    } else {
        assert forall|j: int| 0 <= j < s.drop_first().len() implies (#[trigger] s.drop_first()[j]).0
            != k by {
            assert(s.drop_first()[j] == s[j + 1]);
        }
        lemma_update_if_present_absent(s.drop_first(), k, f);
        assert(update_if_present(s, k, f) =~= s);
    }
}

/// With pairwise distinct keys, looking up the key stored at `i`
/// returns the value stored at `i`.
pub proof fn lemma_lookup_index<K, V>(s: Seq<(K, V)>, i: int)
    requires
        unique_keys(s),
        0 <= i < s.len(),
    ensures
        lookup(s, s[i].0) == Some(s[i].1),
    decreases s.len(),
{
    if i > 0 {
        assert(s[0].0 != s[i].0);
        assert(unique_keys(s.drop_first())) by {
            assert forall|a: int, b: int|
                0 <= a < b < s.drop_first().len() implies (#[trigger] s.drop_first()[a]).0 != (
            #[trigger] s.drop_first()[b]).0 by {
                assert(s.drop_first()[a] == s[a + 1]);
                assert(s.drop_first()[b] == s[b + 1]);
            }
        }
        assert(s.drop_first()[i - 1] == s[i]);
        lemma_lookup_index(s.drop_first(), i - 1);
    }
}

/// After an `upsert` of `k`, looking up `k` finds the updated (or the
/// fresh) value.
pub proof fn lemma_lookup_upsert_same<K, V>(s: Seq<(K, V)>, k: K, init: V, f: spec_fn(V) -> V)
    ensures
        lookup(upsert(s, k, init, f), k) == match lookup(s, k) {
            Some(v) => Some(f(v)),
            None => Some(init),
        },
    decreases s.len(),
{
    if s.len() == 0 {
        assert(upsert(s, k, init, f) =~= seq![(k, init)]);
        assert(upsert(s, k, init, f)[0].0 == k);
    } else if s[0].0 == k {
        assert(upsert(s, k, init, f)[0] == (s[0].0, f(s[0].1)));
    } else {
        lemma_lookup_upsert_same(s.drop_first(), k, init, f);
        assert(upsert(s, k, init, f)[0] == s[0]);
        assert(upsert(s, k, init, f).drop_first() =~= upsert(s.drop_first(), k, init, f));
    }
}

/// An `upsert` of `k` leaves the lookup of every other key unchanged.
pub proof fn lemma_lookup_upsert_other<K, V>(
    s: Seq<(K, V)>,
    k: K,
    init: V,
    f: spec_fn(V) -> V,
    k2: K,
)
    requires
        k2 != k,
    ensures
        lookup(upsert(s, k, init, f), k2) == lookup(s, k2),
    decreases s.len(),
{
    if s.len() == 0 {
        assert(upsert(s, k, init, f) =~= seq![(k, init)]);
        assert(upsert(s, k, init, f)[0].0 == k);
        assert(upsert(s, k, init, f).drop_first() =~= Seq::<(K, V)>::empty());
        assert(lookup(Seq::<(K, V)>::empty(), k2) is None);
    } else if s[0].0 == k {
        assert(upsert(s, k, init, f)[0] == (s[0].0, f(s[0].1)));
        assert(upsert(s, k, init, f).drop_first() =~= s.drop_first());
    } else {
        lemma_lookup_upsert_other(s.drop_first(), k, init, f, k2);
        assert(upsert(s, k, init, f)[0] == s[0]);
        assert(upsert(s, k, init, f).drop_first() =~= upsert(s.drop_first(), k, init, f));
    }
}

/// A key that is absent from every index has no lookup result.
pub proof fn lemma_lookup_absent<K, V>(s: Seq<(K, V)>, k: K)
    requires
        forall|j: int| 0 <= j < s.len() ==> (#[trigger] s[j]).0 != k,
    ensures
        lookup(s, k) is None,
    decreases s.len(),
{
    if s.len() > 0 {
        assert forall|j: int| 0 <= j < s.drop_first().len() implies (#[trigger] s.drop_first()[j]).0
            != k by {
            assert(s.drop_first()[j] == s[j + 1]);
        }
        lemma_lookup_absent(s.drop_first(), k);
    }
}

} // verus!
