//! Facts about sequences that several modules use.

use vstd::prelude::*;

verus! {

/// What an element is mapped to stands in the mapped sequence.
pub proof fn lemma_filter_map_has<A, B>(s: Seq<A>, f: spec_fn(A) -> Option<B>, i: int)
    requires
        0 <= i < s.len(),
        f(s[i]) is Some,
    ensures
        s.filter_map(f).contains(f(s[i])->0),
    decreases s.len(),
{
    let rest = s.drop_last();
    let y = f(s[i])->0;
    if i < rest.len() {
        lemma_filter_map_has(rest, f, i);
        let k = choose|k: int| 0 <= k < rest.filter_map(f).len() && rest.filter_map(f)[k] == y;
        assert(s.filter_map(f)[k] == y);
    } else {
        assert(s.filter_map(f).last() == y);
    }
}

pub proof fn lemma_filter_map_add<A, B>(a: Seq<A>, b: Seq<A>, f: spec_fn(A) -> Option<B>)
    ensures
        (a + b).filter_map(f) == a.filter_map(f) + b.filter_map(f),
    decreases b.len(),
{
    if b.len() == 0 {
        assert(a + b =~= a);
        assert(a.filter_map(f) + b.filter_map(f) =~= a.filter_map(f));
    } else {
        lemma_filter_map_add(a, b.drop_last(), f);
        assert((a + b).drop_last() =~= a + b.drop_last());
        assert((a + b).filter_map(f) =~= a.filter_map(f) + b.filter_map(f));
    }
}

/// Sequences with the same elements are mapped to sequences with the same
/// elements.
pub proof fn lemma_filter_map_multiset<A, B>(s: Seq<A>, t: Seq<A>, f: spec_fn(A) -> Option<B>)
    requires
        s.to_multiset() == t.to_multiset(),
    ensures
        s.filter_map(f).to_multiset() == t.filter_map(f).to_multiset(),
    decreases s.len(),
{
    broadcast use vstd::seq_lib::group_to_multiset_ensures;

    assert(s.len() == s.to_multiset().len());
    assert(t.len() == t.to_multiset().len());
    if s.len() > 0 {
        let x = s.last();
        assert(s.contains(x));
        assert(t.to_multiset().count(x) > 0);
        assert(t.contains(x));
        let j = choose|j: int| 0 <= j < t.len() && t[j] == x;
        let left = t.take(j);
        let right = t.skip(j + 1);
        assert(t =~= left + (seq![x] + right));
        assert(t.remove(j) =~= left + right);
        assert(s.remove(s.len() - 1) =~= s.drop_last());
        lemma_filter_map_multiset(s.drop_last(), t.remove(j), f);
        lemma_filter_map_add(left, right, f);
        lemma_filter_map_add(left, seq![x] + right, f);
        lemma_filter_map_add(seq![x], right, f);
        assert(seq![x].drop_last() =~= Seq::<A>::empty());
        assert(s.filter_map(f) == s.drop_last().filter_map(f) + seq![x].filter_map(f)) by {
            assert(s =~= s.drop_last() + seq![x]);
            lemma_filter_map_add(s.drop_last(), seq![x], f);
        }
        let a = left.filter_map(f);
        let b = right.filter_map(f);
        let m = seq![x].filter_map(f);
        vstd::seq_lib::lemma_multiset_commutative(s.drop_last().filter_map(f), m);
        vstd::seq_lib::lemma_multiset_commutative(a, b);
        vstd::seq_lib::lemma_multiset_commutative(a, m + b);
        vstd::seq_lib::lemma_multiset_commutative(m, b);
        assert(t.filter_map(f) == a + (m + b));
        assert(s.filter_map(f).to_multiset() =~= t.filter_map(f).to_multiset());
    } else {
        assert(s =~= t);
    }
}

} // verus!
