//! The fingerprint of an atlas's sources: a stamp (path, modification time,
//! length) per source image, put in the order of their paths so that the
//! fingerprint does not depend on the order in which a folder lists them.

use vstd::prelude::*;
use std::hash::{BuildHasher, BuildHasherDefault, DefaultHasher};
use crate::sorting::{lemma_insert_sorted, lemma_insert_sorted_at, lemma_sort_seq, lemma_sorted_unique, sort_seq, sorted_by, strict_total};
use crate::text::{chars_less, lemma_chars_less_irreflexive, lemma_chars_less_total, lemma_chars_less_transitive, str_less};

verus! {

/// What is known of a source image when its fingerprint is taken: its path,
/// its modification time in whole seconds since the Unix epoch, and its
/// length in bytes.
#[derive(Debug, Hash)]
pub struct SourceStamp {
    pub path: String,
    pub mtime_secs: u64,
    pub len: u64,
}

/// A stamp as values: path, modification time, length.
pub type StampView = (Seq<char>, u64, u64);

impl View for SourceStamp {
    type V = StampView;

    open spec fn view(&self) -> StampView {
        (self.path@, self.mtime_secs, self.len)
    }
}

/// The views of a sequence of stamps.
pub open spec fn stamp_views(s: Seq<SourceStamp>) -> Seq<StampView> {
    s.map_values(|t: SourceStamp| t@)
}

/// The order of stamps: by path; stamps of one path by modification time,
/// then by length.
pub open spec fn stamp_before(a: StampView, b: StampView) -> bool {
    ||| chars_less(a.0, b.0)
    ||| (a.0 == b.0 && a.1 < b.1)
    ||| (a.0 == b.0 && a.1 == b.1 && a.2 < b.2)
}

/// `stamp_before` as a relation.
pub open spec fn stamp_order() -> spec_fn(StampView, StampView) -> bool {
    |a: StampView, b: StampView| stamp_before(a, b)
}

/// `stamp_before` is a strict total order.
pub proof fn lemma_stamp_order_total()
    ensures
        strict_total(stamp_order()),
{
    assert forall|a: StampView| !#[trigger] stamp_order()(a, a) by {
        lemma_chars_less_irreflexive(a.0);
    }
    assert forall|a: StampView, b: StampView, c: StampView|
        #[trigger] stamp_order()(a, b) && #[trigger] stamp_order()(b, c) implies stamp_order()(a, c) by {
        if chars_less(a.0, b.0) && chars_less(b.0, c.0) {
            lemma_chars_less_transitive(a.0, b.0, c.0);
        }
    }
    assert forall|a: StampView, b: StampView| a != b implies #[trigger] stamp_order()(a, b) || #[trigger] stamp_order()(b, a) by {
        if a.0 != b.0 {
            lemma_chars_less_total(a.0, b.0);
        }
    }
}

/// The order of the stamps does not depend on the order they were taken
/// in: stamps that are a permutation of each other are put in the same
/// order.
pub proof fn lemma_stamps_ignore_listing_order(s1: Seq<StampView>, s2: Seq<StampView>)
    requires
        s1.to_multiset() == s2.to_multiset(),
    ensures
        sort_seq(s1, stamp_order()) == sort_seq(s2, stamp_order()),
{
    lemma_stamp_order_total();
    lemma_sort_seq(s1, stamp_order());
    lemma_sort_seq(s2, stamp_order());
    lemma_sorted_unique(sort_seq(s1, stamp_order()), sort_seq(s2, stamp_order()), stamp_order());
}

/// Whether stamp `a` comes before `b` (`stamp_before`).
fn stamp_comes_before(a: &SourceStamp, b: &SourceStamp) -> (r: bool)
    ensures
        r == stamp_before(a@, b@),
{
    let lt = str_less(a.path.as_str(), b.path.as_str());
    let gt = str_less(b.path.as_str(), a.path.as_str());
    if lt || gt {
        return lt;
    }
    proof {
        if a.path@ != b.path@ {
            lemma_chars_less_total(a.path@, b.path@);
        }
    }
    if a.mtime_secs != b.mtime_secs {
        return a.mtime_secs < b.mtime_secs;
    }
    a.len < b.len
}

/// The stamps in the order of their paths (`stamp_before`), the order in
/// which they are fingerprinted.
pub fn order_stamps(stamps: Vec<SourceStamp>) -> (r: Vec<SourceStamp>)
    ensures
        stamp_views(r@) == sort_seq(stamp_views(stamps@), stamp_order()),
        r@.to_multiset() == stamps@.to_multiset(),
        forall|i: int, j: int| 0 <= i < j < r@.len() ==> !chars_less(#[trigger] r@[j].path@, #[trigger] r@[i].path@),
{
    broadcast use vstd::seq_lib::group_to_multiset_ensures;
    let ghost all = stamps@;
    let mut rest = stamps;
    let mut out: Vec<SourceStamp> = Vec::new();
    proof {
        lemma_stamp_order_total();
        assert(all.skip(all.len() as int) =~= Seq::<SourceStamp>::empty());
        assert(stamp_views(out@) =~= Seq::<StampView>::empty());
    }
    while rest.len() > 0
        invariant
            strict_total(stamp_order()),
            rest@.len() <= all.len(),
            rest@ == all.take(rest@.len() as int),
            sorted_by(stamp_views(out@), stamp_order()),
            out@.to_multiset() == all.skip(rest@.len() as int).to_multiset(),
            stamp_views(out@).to_multiset() == stamp_views(all.skip(rest@.len() as int)).to_multiset(),
        decreases rest@.len(),
    {
        let ghost n = rest@.len() as int;
        let t = rest.pop().unwrap();
        assert(t == all[n - 1]);
        assert(rest@ =~= all.take(n - 1));
        assert(all.skip(n - 1) =~= seq![t] + all.skip(n));
        assert(stamp_views(all.skip(n - 1)) =~= seq![t@] + stamp_views(all.skip(n)));
        let ghost before = stamp_views(out@);
        let ghost old_out = out@;
        let mut k: usize = 0;
        while k < out.len() && !stamp_comes_before(&t, &out[k])
            invariant
                k <= out@.len(),
                out@ == old_out,
                before == stamp_views(out@),
                forall|j: int| 0 <= j < k ==> !stamp_order()(t@, #[trigger] before[j]),
            decreases out@.len() - k,
        {
            k = k + 1;
        }
        proof {
            lemma_insert_sorted_at(before, t@, stamp_order(), k as int);
            lemma_insert_sorted(before, t@, stamp_order());
            vstd::seq_lib::to_multiset_insert(old_out, k as int, t);
            vstd::seq_lib::lemma_seq_union_to_multiset_commutative(seq![t], all.skip(n));
            vstd::seq_lib::lemma_seq_union_to_multiset_commutative(seq![t@], stamp_views(all.skip(n)));
            vstd::seq_lib::to_multiset_build(all.skip(n), t);
            vstd::seq_lib::to_multiset_build(stamp_views(all.skip(n)), t@);
            assert(all.skip(n) + seq![t] =~= all.skip(n).push(t));
            assert(stamp_views(all.skip(n)) + seq![t@] =~= stamp_views(all.skip(n)).push(t@));
        }
        out.insert(k, t);
        assert(stamp_views(out@) =~= before.insert(k as int, t@));
        assert(out@.to_multiset() =~= all.skip(n - 1).to_multiset());
        assert(stamp_views(out@).to_multiset() =~= stamp_views(all.skip(n - 1)).to_multiset());
    }
    proof {
        assert(all.skip(0) =~= all);
        lemma_sort_seq(stamp_views(all), stamp_order());
        lemma_sorted_unique(stamp_views(out@), sort_seq(stamp_views(all), stamp_order()), stamp_order());
        assert forall|i: int, j: int| 0 <= i < j < out@.len() implies !chars_less(#[trigger] out@[j].path@, #[trigger] out@[i].path@) by {
            assert(stamp_views(out@)[i] == out@[i]@);
            assert(stamp_views(out@)[j] == out@[j]@);
        }
    }
    out
}

/// `BuildHasher::hash_one` on std's default `DefaultHasher` (SipHash with
/// fixed keys, as `DefaultHasher::new` makes it), over the stamps as they
/// are ordered, each hashed field by field. Nothing is stated of the result:
/// it depends on the target, since the lengths it hashes are `usize`.
#[verifier::external_body]
fn hash_stamps(stamps: &Vec<SourceStamp>) -> u64 {
    BuildHasherDefault::<DefaultHasher>::default().hash_one(stamps)
}

/// The fingerprint of an atlas's sources: the hash of their stamps in the
/// order of `order_stamps`, so that it does not depend on the order in which
/// the stamps were taken. Equal fingerprints mean, to an incremental build,
/// that nothing changed.
pub fn fingerprint_sources(stamps: Vec<SourceStamp>) -> u64 {
    let ordered = order_stamps(stamps);
    hash_stamps(&ordered)
}

} // verus!
