//! Facts about rearranging a sequence by taking one element out and putting
//! it back at an earlier place, as the insertion sorts of this crate do.

use vstd::prelude::*;
use vstd::seq_lib::lemma_multiset_commutative;

verus! {

/// No two positions hold the same value under the key `f`.
pub open spec fn distinct_by<A, B>(s: Seq<A>, f: spec_fn(A) -> B) -> bool {
    forall|i: int, j: int| 0 <= i < j < s.len() ==> f(#[trigger] s[i]) != f(#[trigger] s[j])
}

/// Where position `t` of `s.remove(i).insert(j, s[i])` came from in `s`.
pub open spec fn moved_from(i: int, j: int, t: int) -> int {
    if t < j {
        t
    } else if t == j {
        i
    } else if t <= i {
        t - 1
    } else {
        t
    }
}

/// Where position `t` of `s` went to in `s.remove(i).insert(j, s[i])`.
pub open spec fn moved_to(i: int, j: int, t: int) -> int {
    if t < j {
        t
    } else if t < i {
        t + 1
    } else if t == i {
        j
    } else {
        t
    }
}

/// Pointwise description of taking the element at `i` out and putting it
/// back at `j <= i`.
pub proof fn lemma_remove_insert_pointwise<A>(s: Seq<A>, i: int, j: int)
    requires
        0 <= j <= i < s.len(),
    ensures
        s.remove(i).insert(j, s[i]).len() == s.len(),
        forall|t: int|
            0 <= t < s.len() ==> #[trigger] s.remove(i).insert(j, s[i])[t] == s[moved_from(
                i,
                j,
                t,
            )],
{
    let c = s.remove(i);
    s.remove_ensures(i);
    c.insert_ensures(j, s[i]);
    let s2 = c.insert(j, s[i]);
    assert forall|t: int| 0 <= t < s.len() implies #[trigger] s2[t] == s[moved_from(i, j, t)] by {
        if t < j {
            assert(s2[t] == c[t]);
        } else if t == j {
            assert(s2[t] == s[i]);
        } else if t <= i {
            assert(s2[(t - 1) + 1] == c[t - 1]);
        } else {
            assert(s2[(t - 1) + 1] == c[t - 1]);
        }
    }
}

/// The rearrangement keeps every filtered selection, provided the element
/// only jumps over positions the predicate rejects whenever the element
/// itself satisfies it.
pub proof fn lemma_remove_insert_filter<A>(s: Seq<A>, i: int, j: int, p: spec_fn(A) -> bool)
    requires
        0 <= j <= i < s.len(),
        p(s[i]) ==> forall|t: int| j <= t < i ==> !p(#[trigger] s[t]),
    ensures
        s.remove(i).insert(j, s[i]).filter(p) == s.filter(p),
{
    let x = s[i];
    let pp = s.subrange(0, j);
    let mm = s.subrange(j, i);
    let ss = s.subrange(i + 1, s.len() as int);
    let s2 = s.remove(i).insert(j, x);
    lemma_remove_insert_pointwise(s, i, j);
    assert(s =~= pp + mm + seq![x] + ss);
    assert(s2 =~= pp + seq![x] + mm + ss);
    lemma_filter_concat(pp + mm + seq![x], ss, p);
    lemma_filter_concat(pp + mm, seq![x], p);
    lemma_filter_concat(pp, mm, p);
    lemma_filter_concat(pp + seq![x] + mm, ss, p);
    lemma_filter_concat(pp + seq![x], mm, p);
    lemma_filter_concat(pp, seq![x], p);
    lemma_filter_singleton(x, p);
    if p(x) {
        assert(mm.filter(p) =~= Seq::<A>::empty()) by {
            lemma_filter_of_rejected(mm, p);
        }
        assert(s.filter(p) =~= pp.filter(p) + seq![x] + ss.filter(p));
        assert(s2.filter(p) =~= pp.filter(p) + seq![x] + ss.filter(p));
    } else {
        assert(s.filter(p) =~= pp.filter(p) + mm.filter(p) + ss.filter(p));
        assert(s2.filter(p) =~= pp.filter(p) + mm.filter(p) + ss.filter(p));
    }
}

/// Filtering distributes over concatenation.
pub proof fn lemma_filter_concat<A>(a: Seq<A>, b: Seq<A>, p: spec_fn(A) -> bool)
    ensures
        (a + b).filter(p) == a.filter(p) + b.filter(p),
    decreases b.len(),
{
    reveal_with_fuel(Seq::filter, 2);
    if b.len() == 0 {
        assert(a + b =~= a);
        assert(b.filter(p) =~= Seq::<A>::empty());
        assert(a.filter(p) + b.filter(p) =~= a.filter(p));
    } else {
        let ab = a + b;
        assert(ab.drop_last() =~= a + b.drop_last());
        lemma_filter_concat(a, b.drop_last(), p);
        assert(ab.last() == b.last());
        if p(b.last()) {
            assert(ab.filter(p) =~= a.filter(p) + b.drop_last().filter(p).push(b.last()));
            assert(b.filter(p) == b.drop_last().filter(p).push(b.last()));
            assert(a.filter(p) + b.filter(p) =~= a.filter(p) + b.drop_last().filter(p).push(
                b.last(),
            ));
        } else {
            assert(ab.filter(p) == ab.drop_last().filter(p));
            assert(b.filter(p) == b.drop_last().filter(p));
        }
    }
}

/// Filtering a one-element sequence.
pub proof fn lemma_filter_singleton<A>(x: A, p: spec_fn(A) -> bool)
    ensures
        seq![x].filter(p) == if p(x) {
            seq![x]
        } else {
            Seq::<A>::empty()
        },
{
    reveal_with_fuel(Seq::filter, 2);
    let s = seq![x];
    assert(s.drop_last() =~= Seq::<A>::empty());
    assert(Seq::<A>::empty().filter(p) =~= Seq::<A>::empty());
    assert(s.last() == x);
    if p(x) {
        assert(s.filter(p) == s.drop_last().filter(p).push(x));
        assert(Seq::<A>::empty().push(x) =~= s);
    }
}

/// A sequence every element of which the predicate rejects filters to
/// nothing.
pub proof fn lemma_filter_of_rejected<A>(s: Seq<A>, p: spec_fn(A) -> bool)
    requires
        forall|t: int| 0 <= t < s.len() ==> !p(#[trigger] s[t]),
    ensures
        s.filter(p).len() == 0,
    decreases s.len(),
{
    reveal_with_fuel(Seq::filter, 2);
    if s.len() > 0 {
        lemma_filter_of_rejected(s.drop_last(), p);
    }
}

/// The rearrangement keeps pairwise distinctness of any key.
pub proof fn lemma_remove_insert_distinct<A, B>(s: Seq<A>, i: int, j: int, f: spec_fn(A) -> B)
    requires
        0 <= j <= i < s.len(),
        distinct_by(s, f),
    ensures
        distinct_by(s.remove(i).insert(j, s[i]), f),
{
    let s2 = s.remove(i).insert(j, s[i]);
    lemma_remove_insert_pointwise(s, i, j);
    assert forall|a: int, b: int| 0 <= a < b < s2.len() implies f(#[trigger] s2[a]) != f(
        #[trigger] s2[b],
    ) by {
        let fa = moved_from(i, j, a);
        let fb = moved_from(i, j, b);
        assert(s2[a] == s[fa]);
        assert(s2[b] == s[fb]);
        assert(fa != fb);
        if fa < fb {
            assert(f(s[fa]) != f(s[fb]));
        } else {
            assert(f(s[fb]) != f(s[fa]));
        }
    }
}

/// The rearrangement keeps membership.
pub proof fn lemma_remove_insert_contains<A>(s: Seq<A>, i: int, j: int)
    requires
        0 <= j <= i < s.len(),
    ensures
        forall|a: A| s.remove(i).insert(j, s[i]).contains(a) <==> s.contains(a),
{
    let s2 = s.remove(i).insert(j, s[i]);
    lemma_remove_insert_pointwise(s, i, j);
    assert forall|a: A| s2.contains(a) <==> s.contains(a) by {
        if s2.contains(a) {
            let t = choose|t: int| 0 <= t < s2.len() && s2[t] == a;
            assert(s[moved_from(i, j, t)] == a);
        }
        if s.contains(a) {
            let t = choose|t: int| 0 <= t < s.len() && s[t] == a;
            assert(s2[moved_to(i, j, t)] == s[moved_from(i, j, moved_to(i, j, t))]);
            assert(moved_from(i, j, moved_to(i, j, t)) == t);
            assert(s2[moved_to(i, j, t)] == a);
        }
    }
}

/// The rearrangement keeps the multiset of elements.
pub proof fn lemma_remove_insert_multiset<A>(s: Seq<A>, i: int, j: int)
    requires
        0 <= j <= i < s.len(),
    ensures
        s.remove(i).insert(j, s[i]).to_multiset() == s.to_multiset(),
{
    let x = s[i];
    let pp = s.subrange(0, j);
    let mm = s.subrange(j, i);
    let ss = s.subrange(i + 1, s.len() as int);
    let s2 = s.remove(i).insert(j, x);
    lemma_remove_insert_pointwise(s, i, j);
    assert(s =~= (pp + mm) + (seq![x] + ss));
    assert(s2 =~= (pp + seq![x]) + (mm + ss));
    lemma_multiset_commutative(pp + mm, seq![x] + ss);
    lemma_multiset_commutative(pp, mm);
    lemma_multiset_commutative(seq![x], ss);
    lemma_multiset_commutative(pp + seq![x], mm + ss);
    lemma_multiset_commutative(pp, seq![x]);
    lemma_multiset_commutative(mm, ss);
    assert(s.to_multiset() =~= pp.to_multiset().add(mm.to_multiset()).add(
        seq![x].to_multiset().add(ss.to_multiset()),
    ));
    assert(s2.to_multiset() =~= pp.to_multiset().add(seq![x].to_multiset()).add(
        mm.to_multiset().add(ss.to_multiset()),
    ));
    assert(s2.to_multiset() =~= s.to_multiset());
}

} // verus!
