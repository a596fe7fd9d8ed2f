//! Ranking for the reports: a stable descending sort of `(key, index)`
//! pairs.
//!
//! Report tables are ranked by one numeric key.  Rows are sorted
//! indirectly: the pair `(key, row index)` is sorted descending by key,
//! insertion order breaking ties (the sort is stable), and the rows are
//! then read off in pair order.  The sort is defined as a spec-level
//! insertion sort, so that every report's output is a function of its
//! input tables; the lemmas show it sorts and permutes.

use vstd::prelude::*;

verus! {

use vstd::multiset::Multiset;

/// `x` inserted behind every pair with an equal or larger key.
pub open spec fn spec_insert_desc(s: Seq<(u64, usize)>, x: (u64, usize)) -> Seq<(u64, usize)>
    decreases s.len(),
{
    if s.len() == 0 {
        seq![x]
    } else if s[0].0 >= x.0 {
        seq![s[0]] + spec_insert_desc(s.drop_first(), x)
    } else {
        seq![x] + s
    }
}

/// The elements of `s` inserted into `acc` left to right.
pub open spec fn spec_sort_desc_into(acc: Seq<(u64, usize)>, s: Seq<(u64, usize)>) -> Seq<
    (u64, usize),
>
    decreases s.len(),
{
    if s.len() == 0 {
        acc
    } else {
        spec_sort_desc_into(spec_insert_desc(acc, s[0]), s.drop_first())
    }
}

/// `s` sorted descending by key, stably.
pub open spec fn spec_sort_desc(s: Seq<(u64, usize)>) -> Seq<(u64, usize)> {
    spec_sort_desc_into(Seq::empty(), s)
}

/// Non-increasing keys.
pub open spec fn sorted_desc(s: Seq<(u64, usize)>) -> bool {
    forall|i: int, j: int| 0 <= i < j < s.len() ==> (#[trigger] s[i]).0 >= (#[trigger] s[j]).0
}

/// Inserting keeps the sequence sorted and adds exactly the new pair.
pub proof fn lemma_insert_desc_props(s: Seq<(u64, usize)>, x: (u64, usize))
    requires
        sorted_desc(s),
    ensures
        sorted_desc(spec_insert_desc(s, x)),
        spec_insert_desc(s, x).to_multiset() == s.to_multiset().insert(x),
        spec_insert_desc(s, x).len() == s.len() + 1,
    decreases s.len(),
{
    broadcast use vstd::seq_lib::group_to_multiset_ensures;

    let r = spec_insert_desc(s, x);
    if s.len() == 0 {
        assert(r =~= seq![x]);
        assert(seq![x] =~= Seq::<(u64, usize)>::empty().push(x));
    } else if s[0].0 >= x.0 {
        assert(sorted_desc(s.drop_first())) by {
            assert forall|i: int, j: int|
                0 <= i < j < s.drop_first().len() implies (#[trigger] s.drop_first()[i]).0 >= (
            #[trigger] s.drop_first()[j]).0 by {
                assert(s.drop_first()[i] == s[i + 1]);
                assert(s.drop_first()[j] == s[j + 1]);
            }
        }
        lemma_insert_desc_props(s.drop_first(), x);
        let inner = spec_insert_desc(s.drop_first(), x);
        assert(r =~= seq![s[0]] + inner);
        // the head bounds everything that follows it
        assert forall|i: int, j: int| 0 <= i < j < r.len() implies (#[trigger] r[i]).0 >= (
        #[trigger] r[j]).0 by {
            if i == 0 {
                // r[j] is either x or an element of s
                assert(inner[j - 1] == r[j]);
                assert(inner.to_multiset().contains(inner[j - 1]));
                if inner[j - 1] == x {
                } else {
                    assert(s.drop_first().to_multiset().contains(inner[j - 1]));
                    let w = choose|w: int|
                        0 <= w < s.drop_first().len() && s.drop_first()[w] == inner[j - 1];
                    assert(s[w + 1] == inner[j - 1]);
                }
            } else {
                assert(inner[i - 1] == r[i]);
                assert(inner[j - 1] == r[j]);
            }
        }
        assert(r.to_multiset() =~= s.to_multiset().insert(x)) by {
            assert(s =~= seq![s[0]] + s.drop_first());
            vstd::seq_lib::lemma_multiset_commutative(seq![s[0]], inner);
            vstd::seq_lib::lemma_multiset_commutative(seq![s[0]], s.drop_first());
        }
    } else {
        assert(r =~= seq![x] + s);
        assert forall|i: int, j: int| 0 <= i < j < r.len() implies (#[trigger] r[i]).0 >= (
        #[trigger] r[j]).0 by {
            if i == 0 {
                assert(r[j] == s[j - 1]);
                if j - 1 > 0 {
                    assert(s[0].0 >= s[j - 1].0);
                }
            } else {
                assert(r[i] == s[i - 1]);
                assert(r[j] == s[j - 1]);
            }
        }
        assert(r.to_multiset() =~= s.to_multiset().insert(x)) by {
            vstd::seq_lib::lemma_multiset_commutative(seq![x], s);
            assert(seq![x].to_multiset() =~= Multiset::<(u64, usize)>::empty().insert(x));
        }
    }
}

/// A full sort from a sorted accumulator stays sorted and holds exactly
/// the pairs of both.
pub proof fn lemma_sort_desc_into_props(acc: Seq<(u64, usize)>, s: Seq<(u64, usize)>)
    requires
        sorted_desc(acc),
    ensures
        sorted_desc(spec_sort_desc_into(acc, s)),
        spec_sort_desc_into(acc, s).to_multiset() == acc.to_multiset().add(s.to_multiset()),
        spec_sort_desc_into(acc, s).len() == acc.len() + s.len(),
    decreases s.len(),
{
    broadcast use vstd::seq_lib::group_to_multiset_ensures;

    if s.len() == 0 {
        assert(s.to_multiset() =~= Multiset::<(u64, usize)>::empty());
        assert(acc.to_multiset().add(s.to_multiset()) =~= acc.to_multiset());
    } else {
        lemma_insert_desc_props(acc, s[0]);
        lemma_sort_desc_into_props(spec_insert_desc(acc, s[0]), s.drop_first());
        assert(s =~= seq![s[0]] + s.drop_first());
        vstd::seq_lib::lemma_multiset_commutative(seq![s[0]], s.drop_first());
        assert(seq![s[0]].to_multiset() =~= Multiset::<(u64, usize)>::empty().insert(s[0]));
        assert(spec_sort_desc_into(acc, s).to_multiset() =~= acc.to_multiset().add(
            s.to_multiset(),
        ));
    }
}

/// The sort sorts, permutes, and keeps the length.
pub proof fn lemma_sort_desc_props(s: Seq<(u64, usize)>)
    ensures
        sorted_desc(spec_sort_desc(s)),
        spec_sort_desc(s).to_multiset() == s.to_multiset(),
        spec_sort_desc(s).len() == s.len(),
{
    broadcast use vstd::seq_lib::group_to_multiset_ensures;

    lemma_sort_desc_into_props(Seq::empty(), s);
    assert(Seq::<(u64, usize)>::empty().to_multiset() =~= Multiset::<(u64, usize)>::empty());
    assert(Multiset::<(u64, usize)>::empty().add(s.to_multiset()) =~= s.to_multiset());
}

/// Every pair of the sorted sequence is a pair of the input.
pub proof fn lemma_sort_desc_membership(s: Seq<(u64, usize)>, i: int)
    requires
        0 <= i < spec_sort_desc(s).len(),
    ensures
        exists|j: int| 0 <= j < s.len() && s[j] == spec_sort_desc(s)[i],
{
    broadcast use vstd::seq_lib::group_to_multiset_ensures;

    lemma_sort_desc_props(s);
    let x = spec_sort_desc(s)[i];
    assert(spec_sort_desc(s).to_multiset().contains(x));
    assert(s.to_multiset().contains(x));
    assert(s.contains(x));
}

/// Insert `x` behind every pair with an equal or larger key.
pub fn insert_desc(out: &mut Vec<(u64, usize)>, x: (u64, usize))
    ensures
        final(out)@ == spec_insert_desc(old(out)@, x),
{
    let n = out.len();
    let mut i: usize = 0;
    while i < n
        invariant
            i <= n,
            n == out@.len(),
            *out == *old(out),
            forall|j: int| 0 <= j < i ==> (#[trigger] out@[j]).0 >= x.0,
        decreases n - i,
    {
        if out[i].0 < x.0 {
            proof {
                lemma_insert_desc_split(old(out)@, x, i as int);
            }
            out.insert(i, x);
            proof {
                assert(out@ =~= old(out)@.subrange(0, i as int).push(x) + old(out)@.subrange(
                    i as int,
                    old(out)@.len() as int,
                ));
            }
            return ;
        }
        i += 1;
    }
    proof {
        lemma_insert_desc_split(old(out)@, x, old(out)@.len() as int);
    }
    out.push(x);
    proof {
        assert(out@ =~= old(out)@.subrange(0, old(out)@.len() as int).push(x) + old(
            out,
        )@.subrange(old(out)@.len() as int, old(out)@.len() as int));
    }
}

/// `spec_insert_desc` places `x` exactly at the first index whose key
/// is smaller.
proof fn lemma_insert_desc_split(s: Seq<(u64, usize)>, x: (u64, usize), i: int)
    requires
        0 <= i <= s.len(),
        forall|j: int| 0 <= j < i ==> (#[trigger] s[j]).0 >= x.0,
        i < s.len() ==> s[i].0 < x.0,
    ensures
        spec_insert_desc(s, x) == s.subrange(0, i).push(x) + s.subrange(i, s.len() as int),
    decreases s.len(),
{
    if s.len() == 0 {
        assert(spec_insert_desc(s, x) =~= s.subrange(0, i).push(x) + s.subrange(
            i,
            s.len() as int,
        ));
    } else if i == 0 {
        assert(s[0].0 < x.0);
        assert(spec_insert_desc(s, x) =~= s.subrange(0, 0).push(x) + s.subrange(0, s.len() as int));
    } else {
        assert(s[0].0 >= x.0);
        assert forall|j: int| 0 <= j < i - 1 implies (#[trigger] s.drop_first()[j]).0 >= x.0 by {
            assert(s.drop_first()[j] == s[j + 1]);
        }
        if i < s.len() {
            assert(s.drop_first()[i - 1] == s[i]);
        }
        lemma_insert_desc_split(s.drop_first(), x, i - 1);
        assert(spec_insert_desc(s, x) =~= s.subrange(0, i).push(x) + s.subrange(i, s.len() as int));
    }
}

/// `s` sorted descending by key, stably: equal keys keep their input
/// order.
pub fn sort_pairs_desc(s: &Vec<(u64, usize)>) -> (r: Vec<(u64, usize)>)
    ensures
        r@ == spec_sort_desc(s@),
{
    let n = s.len();
    let mut out: Vec<(u64, usize)> = Vec::new();
    let mut i: usize = 0;
    while i < n
        invariant
            i <= n,
            n == s@.len(),
            out@ == spec_sort_desc(s@.subrange(0, i as int)),
        decreases n - i,
    {
        proof {
            lemma_sort_desc_into_step(s@.subrange(0, i as int), s@[i as int]);
            assert(s@.subrange(0, i + 1 as int) =~= s@.subrange(0, i as int).push(s@[i as int]));
        }
        insert_desc(&mut out, s[i]);
        i += 1;
    }
    proof {
        assert(s@.subrange(0, n as int) =~= s@);
    }
    out
}

/// Sorting one more trailing element inserts it into the sorted prefix.
proof fn lemma_sort_desc_into_step(s: Seq<(u64, usize)>, x: (u64, usize))
    ensures
        spec_sort_desc(s.push(x)) == spec_insert_desc(spec_sort_desc(s), x),
{
    lemma_sort_into_push(Seq::empty(), s, x);
}

proof fn lemma_sort_into_push(acc: Seq<(u64, usize)>, s: Seq<(u64, usize)>, x: (u64, usize))
    ensures
        spec_sort_desc_into(acc, s.push(x)) == spec_insert_desc(spec_sort_desc_into(acc, s), x),
    decreases s.len(),
{
    if s.len() == 0 {
        assert(s.push(x)[0] == x);
        assert(s.push(x).drop_first() =~= Seq::<(u64, usize)>::empty());
        assert(spec_sort_desc_into(spec_insert_desc(acc, x), Seq::<(u64, usize)>::empty())
            == spec_insert_desc(acc, x));
        assert(spec_sort_desc_into(acc, s.push(x)) == spec_insert_desc(acc, x));
    } else {
        assert(s.push(x)[0] == s[0]);
        assert(s.push(x).drop_first() =~= s.drop_first().push(x));
        lemma_sort_into_push(spec_insert_desc(acc, s[0]), s.drop_first(), x);
    }
}

} // verus!
