//! Sorting by a strict total order: inserting into a sorted sequence, the
//! sorted arrangement of a sequence, and its uniqueness.

use vstd::prelude::*;

verus! {

/// Whether `before` is a strict total order: irreflexive, transitive, and
/// relating any two different values one way or the other.
pub open spec fn strict_total<A>(before: spec_fn(A, A) -> bool) -> bool {
    &&& forall|a: A| !#[trigger] before(a, a)
    &&& forall|a: A, b: A, c: A| #[trigger] before(a, b) && #[trigger] before(b, c) ==> before(a, c)
    &&& forall|a: A, b: A| a != b ==> #[trigger] before(a, b) || #[trigger] before(b, a)
}

/// Whether no element of `s` comes before an element ahead of it.
pub open spec fn sorted_by<A>(s: Seq<A>, before: spec_fn(A, A) -> bool) -> bool {
    forall|i: int, j: int| 0 <= i < j < s.len() ==> !before(#[trigger] s[j], #[trigger] s[i])
}

/// Inserts `x` into `s` before the first element that `x` comes before.
pub open spec fn insert_sorted<A>(s: Seq<A>, x: A, before: spec_fn(A, A) -> bool) -> Seq<A>
    decreases s.len(),
{
    if s.len() == 0 {
        seq![x]
    } else if before(x, s[0]) {
        seq![x] + s
    } else {
        seq![s[0]] + insert_sorted(s.drop_first(), x, before)
    }
}

/// `s` sorted by `before`, by inserting its elements one after another.
pub open spec fn sort_seq<A>(s: Seq<A>, before: spec_fn(A, A) -> bool) -> Seq<A>
    decreases s.len(),
{
    if s.len() == 0 {
        s
    } else {
        insert_sorted(sort_seq(s.drop_last(), before), s.last(), before)
    }
}

/// `insert_sorted` puts `x` at the first index whose element `x` comes
/// before.
pub proof fn lemma_insert_sorted_at<A>(s: Seq<A>, x: A, before: spec_fn(A, A) -> bool, k: int)
    requires
        0 <= k <= s.len(),
        forall|j: int| 0 <= j < k ==> !before(x, #[trigger] s[j]),
        k < s.len() ==> before(x, s[k]),
    ensures
        insert_sorted(s, x, before) == s.insert(k, x),
    decreases s.len(),
{
    if s.len() == 0 {
        assert(s.insert(k, x) =~= seq![x]);
    } else if before(x, s[0]) {
        assert(k == 0);
        assert(s.insert(k, x) =~= seq![x] + s);
    } else {
        lemma_insert_sorted_at(s.drop_first(), x, before, k - 1);
        assert(s.insert(k, x) =~= seq![s[0]] + s.drop_first().insert(k - 1, x));
    }
}

/// Inserting into a sorted sequence keeps it sorted and adds `x` to its
/// elements.
pub proof fn lemma_insert_sorted<A>(s: Seq<A>, x: A, before: spec_fn(A, A) -> bool)
    requires
        strict_total(before),
    ensures
        sorted_by(s, before) ==> sorted_by(insert_sorted(s, x, before), before),
        insert_sorted(s, x, before).to_multiset() == s.to_multiset().insert(x),
        insert_sorted(s, x, before).len() == s.len() + 1,
    decreases s.len(),
{
    broadcast use vstd::seq_lib::group_to_multiset_ensures;
    if s.len() == 0 {
        assert(seq![x] =~= Seq::<A>::empty().push(x));
    } else if before(x, s[0]) {
        let r = seq![x] + s;
        assert(seq![x] =~= Seq::<A>::empty().push(x));
        vstd::seq_lib::lemma_multiset_commutative(seq![x], s);
        assert(r.to_multiset() =~= s.to_multiset().insert(x));
        if sorted_by(s, before) {
            assert forall|i: int, j: int| 0 <= i < j < r.len() implies !before(#[trigger] r[j], #[trigger] r[i]) by {
                if i == 0 {
                    assert(r[j] == s[j - 1]);
                    if j - 1 > 0 {
                        assert(!before(s[j - 1], s[0]));
                    }
                    if before(s[j - 1], x) {
                        assert(before(s[j - 1], s[0]));
                    }
                } else {
                    assert(r[i] == s[i - 1] && r[j] == s[j - 1]);
                }
            }
        }
    } else {
        let t = s.drop_first();
        lemma_insert_sorted(t, x, before);
        let it = insert_sorted(t, x, before);
        let r = seq![s[0]] + it;
        assert(s =~= seq![s[0]] + t);
        vstd::seq_lib::lemma_multiset_commutative(seq![s[0]], it);
        vstd::seq_lib::lemma_multiset_commutative(seq![s[0]], t);
        assert(r.to_multiset() =~= s.to_multiset().insert(x));
        if sorted_by(s, before) {
            assert(sorted_by(t, before)) by {
                assert forall|i: int, j: int| 0 <= i < j < t.len() implies !before(#[trigger] t[j], #[trigger] t[i]) by {
                    assert(t[i] == s[i + 1] && t[j] == s[j + 1]);
                }
            }
            assert forall|i: int, j: int| 0 <= i < j < r.len() implies !before(#[trigger] r[j], #[trigger] r[i]) by {
                if i == 0 {
                    assert(r[j] == it[j - 1]);
                    assert(it.to_multiset().count(it[j - 1]) > 0);
                    if it[j - 1] != x {
                        assert(t.to_multiset().count(it[j - 1]) > 0);
                        let m = choose|m: int| 0 <= m < t.len() && t[m] == it[j - 1];
                        assert(s[m + 1] == t[m]);
                    }
                } else {
                    assert(r[i] == it[i - 1] && r[j] == it[j - 1]);
                }
            }
        }
    }
}

/// `sort_seq` returns the elements of `s`, sorted.
pub proof fn lemma_sort_seq<A>(s: Seq<A>, before: spec_fn(A, A) -> bool)
    requires
        strict_total(before),
    ensures
        sorted_by(sort_seq(s, before), before),
        sort_seq(s, before).to_multiset() == s.to_multiset(),
        sort_seq(s, before).len() == s.len(),
    decreases s.len(),
{
    broadcast use vstd::seq_lib::group_to_multiset_ensures;
    if s.len() > 0 {
        lemma_sort_seq(s.drop_last(), before);
        lemma_insert_sorted(sort_seq(s.drop_last(), before), s.last(), before);
        assert(s =~= s.drop_last().push(s.last()));
    }
}

/// Two sorted sequences with the same elements are equal.
pub proof fn lemma_sorted_unique<A>(s1: Seq<A>, s2: Seq<A>, before: spec_fn(A, A) -> bool)
    requires
        strict_total(before),
        sorted_by(s1, before),
        sorted_by(s2, before),
        s1.to_multiset() == s2.to_multiset(),
    ensures
        s1 == s2,
    decreases s1.len(),
{
    broadcast use vstd::seq_lib::group_to_multiset_ensures;
    broadcast use vstd::multiset::group_multiset_axioms;
    vstd::seq_lib::to_multiset_len(s1);
    vstd::seq_lib::to_multiset_len(s2);
    if s1.len() == 0 {
        assert(s2.len() == 0);
        assert(s1 =~= s2);
    } else {
        assert(s2.len() == s1.len());
        let a = s1[0];
        let b = s2[0];
        assert(s2.to_multiset().count(a) > 0);
        let m2 = choose|m: int| 0 <= m < s2.len() && s2[m] == a;
        assert(s1.to_multiset().count(b) > 0);
        let m1 = choose|m: int| 0 <= m < s1.len() && s1[m] == b;
        if a != b {
            if m2 > 0 {
                assert(!before(s2[m2], s2[0]));
            }
            if m1 > 0 {
                assert(!before(s1[m1], s1[0]));
            }
            assert(before(a, b) || before(b, a));
        }
        let t1 = s1.drop_first();
        let t2 = s2.drop_first();
        assert(s1 =~= seq![a] + t1);
        assert(s2 =~= seq![a] + t2);
        vstd::seq_lib::lemma_multiset_commutative(seq![a], t1);
        vstd::seq_lib::lemma_multiset_commutative(seq![a], t2);
        assert(seq![a] =~= Seq::<A>::empty().push(a));
        assert(t1.to_multiset() =~= t2.to_multiset()) by {
            assert(s1.to_multiset() == t1.to_multiset().insert(a));
            assert(s2.to_multiset() == t2.to_multiset().insert(a));
            assert forall|v: A| #[trigger] t1.to_multiset().count(v) == t2.to_multiset().count(v) by {
                assert(s1.to_multiset().count(v) == s2.to_multiset().count(v));
                assert(t1.to_multiset().insert(a) == t1.to_multiset().add(vstd::multiset::Multiset::singleton(a)));
                assert(t2.to_multiset().insert(a) == t2.to_multiset().add(vstd::multiset::Multiset::singleton(a)));
                assert(t1.to_multiset().insert(a).count(v) == t1.to_multiset().count(v) + vstd::multiset::Multiset::singleton(a).count(v));
                assert(t2.to_multiset().insert(a).count(v) == t2.to_multiset().count(v) + vstd::multiset::Multiset::singleton(a).count(v));
            }
        }
        assert(sorted_by(t1, before)) by {
            assert forall|i: int, j: int| 0 <= i < j < t1.len() implies !before(#[trigger] t1[j], #[trigger] t1[i]) by {
                assert(t1[i] == s1[i + 1] && t1[j] == s1[j + 1]);
            }
        }
        assert(sorted_by(t2, before)) by {
            assert forall|i: int, j: int| 0 <= i < j < t2.len() implies !before(#[trigger] t2[j], #[trigger] t2[i]) by {
                assert(t2[i] == s2[i + 1] && t2[j] == s2[j + 1]);
            }
        }
        lemma_sorted_unique(t1, t2, before);
    }
}

} // verus!
