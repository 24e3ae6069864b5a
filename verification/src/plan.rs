//! The order in which the images of a folder are packed, each with its name
//! and tile size: tallest tiles first, so that the first tile of every row
//! is its tallest.

use vstd::prelude::*;
use crate::error::AtlasError;
use crate::names::{extract_image_paths, file_stem, is_image_entry, stem_of};
use crate::selection::{all_regexes_compile, check_healthy_settings, first_invalid_regex, resolve_size, size_for, wider_than};
use crate::sorting::{insert_sorted, lemma_insert_sorted_at, lemma_sort_seq, lemma_sorted_unique, sort_seq, sorted_by, strict_total};
use crate::text::{chars_less, lemma_chars_less_irreflexive, lemma_chars_less_total, lemma_chars_less_transitive, str_less};
use crate::types::{FolderEntry, NameIdentifier, Settings, Size, TileSpec};

verus! {

/// An image to pack: its name (the file stem), its path and its tile size.
#[derive(Debug)]
pub struct PlannedImage {
    pub name: String,
    pub path: String,
    pub size: Size,
}

/// A planned image as values: name, path and tile size.
pub type PlanView = (Seq<char>, Seq<char>, Size);

impl View for PlannedImage {
    type V = PlanView;

    open spec fn view(&self) -> PlanView {
        (self.name@, self.path@, self.size)
    }
}

/// The views of a sequence of planned images.
pub open spec fn plan_views(plan: Seq<PlannedImage>) -> Seq<PlanView> {
    plan.map_values(|p: PlannedImage| p@)
}

/// What is planned for the folder entry `e`: its stem, its path and the
/// tile size that `specs` give it.
pub open spec fn planned_view(e: FolderEntry, specs: Seq<TileSpec>, default: Size) -> PlanView {
    (file_stem(e.file_name@), e.path@, resolve_size(specs, default, e.file_name@))
}

/// The order of planned images: taller tiles first; among tiles of equal
/// height, by name, then by path, then narrower first.
pub open spec fn plan_before(a: PlanView, b: PlanView) -> bool {
    ||| a.2.h > b.2.h
    ||| (a.2.h == b.2.h && chars_less(a.0, b.0))
    ||| (a.2.h == b.2.h && a.0 == b.0 && chars_less(a.1, b.1))
    ||| (a.2.h == b.2.h && a.0 == b.0 && a.1 == b.1 && a.2.w < b.2.w)
}

/// `plan_before` as a relation.
pub open spec fn plan_order() -> spec_fn(PlanView, PlanView) -> bool {
    |a: PlanView, b: PlanView| plan_before(a, b)
}

/// What is planned for the supported images among `entries`, in listing
/// order.
pub open spec fn planned_images(entries: Seq<FolderEntry>, specs: Seq<TileSpec>, default: Size) -> Seq<PlanView> {
    entries.filter(|e: FolderEntry| is_image_entry(e)).map_values(|e: FolderEntry| planned_view(e, specs, default))
}

/// Whether the tile heights of `s` never increase.
pub open spec fn heights_descending(s: Seq<PlanView>) -> bool {
    forall|i: int, j: int| 0 <= i <= j < s.len() ==> #[trigger] s[j].2.h <= #[trigger] s[i].2.h
}

/// `plan_before` is a strict total order.
pub proof fn lemma_plan_order_total()
    ensures
        strict_total(plan_order()),
{
    assert forall|a: PlanView| !#[trigger] plan_order()(a, a) by {
        lemma_chars_less_irreflexive(a.0);
        lemma_chars_less_irreflexive(a.1);
    }
    assert forall|a: PlanView, b: PlanView, c: PlanView|
        #[trigger] plan_order()(a, b) && #[trigger] plan_order()(b, c) implies plan_order()(a, c) by {
        if a.2.h == b.2.h && b.2.h == c.2.h {
            if chars_less(a.0, b.0) && chars_less(b.0, c.0) {
                lemma_chars_less_transitive(a.0, b.0, c.0);
            }
            if a.0 == b.0 && b.0 == c.0 && chars_less(a.1, b.1) && chars_less(b.1, c.1) {
                lemma_chars_less_transitive(a.1, b.1, c.1);
            }
        }
    }
    assert forall|a: PlanView, b: PlanView| a != b implies #[trigger] plan_order()(a, b) || #[trigger] plan_order()(b, a) by {
        if a.2.h == b.2.h {
            if a.0 != b.0 {
                lemma_chars_less_total(a.0, b.0);
            } else if a.1 != b.1 {
                lemma_chars_less_total(a.1, b.1);
            } else {
                assert(a.2.w != b.2.w);
            }
        }
    }
}

/// A sequence sorted by `plan_before` has its tallest tiles first.
pub proof fn lemma_plan_sorted_descends(s: Seq<PlanView>)
    requires
        sorted_by(s, plan_order()),
    ensures
        heights_descending(s),
{
    assert forall|i: int, j: int| 0 <= i <= j < s.len() implies #[trigger] s[j].2.h <= #[trigger] s[i].2.h by {
        if i < j {
            assert(!plan_order()(s[j], s[i]));
        }
    }
}

/// The planned views of the supported images among `s`, listed one entry
/// at a time.
spec fn image_views(s: Seq<FolderEntry>, specs: Seq<TileSpec>, default: Size) -> Seq<PlanView>
    decreases s.len(),
{
    if s.len() == 0 {
        Seq::empty()
    } else {
        image_views(s.drop_last(), specs, default) + view_of(s.last(), specs, default)
    }
}

/// The planned view of `e`, if it is a supported image.
spec fn view_of(e: FolderEntry, specs: Seq<TileSpec>, default: Size) -> Seq<PlanView> {
    if is_image_entry(e) {
        seq![planned_view(e, specs, default)]
    } else {
        Seq::empty()
    }
}

proof fn lemma_image_views_filter(s: Seq<FolderEntry>, specs: Seq<TileSpec>, default: Size)
    ensures
        image_views(s, specs, default) == planned_images(s, specs, default),
    decreases s.len(),
{
    reveal_with_fuel(Seq::filter, 1);
    if s.len() > 0 {
        lemma_image_views_filter(s.drop_last(), specs, default);
        let f = |e: FolderEntry| is_image_entry(e);
        let g = |e: FolderEntry| planned_view(e, specs, default);
        let prev = s.drop_last().filter(f);
        if f(s.last()) {
            assert(s.filter(f) == prev.push(s.last()));
            assert(prev.push(s.last()).map_values(g) =~= prev.map_values(g) + seq![g(s.last())]);
        } else {
            assert(s.filter(f) == prev);
            assert(prev.map_values(g) =~= prev.map_values(g) + Seq::<PlanView>::empty());
        }
    } else {
        assert(planned_images(s, specs, default) =~= Seq::<PlanView>::empty());
    }
}

proof fn lemma_image_views_insert(s: Seq<FolderEntry>, m: int, x: FolderEntry, specs: Seq<TileSpec>, default: Size)
    requires
        0 <= m <= s.len(),
    ensures
        image_views(s.insert(m, x), specs, default).to_multiset() == image_views(s, specs, default).to_multiset().add(
            view_of(x, specs, default).to_multiset(),
        ),
    decreases s.len(),
{
    broadcast use vstd::seq_lib::group_to_multiset_ensures;
    let t = s.insert(m, x);
    if m == s.len() {
        assert(t.drop_last() =~= s);
        vstd::seq_lib::lemma_multiset_commutative(image_views(s, specs, default), view_of(x, specs, default));
    } else {
        assert(t.drop_last() =~= s.drop_last().insert(m, x));
        assert(t.last() == s.last());
        lemma_image_views_insert(s.drop_last(), m, x, specs, default);
        let a = image_views(s.drop_last(), specs, default);
        vstd::seq_lib::lemma_multiset_commutative(image_views(s.drop_last().insert(m, x), specs, default), view_of(s.last(), specs, default));
        vstd::seq_lib::lemma_multiset_commutative(a, view_of(s.last(), specs, default));
        assert(image_views(t, specs, default).to_multiset() =~= image_views(s, specs, default).to_multiset().add(
            view_of(x, specs, default).to_multiset(),
        ));
    }
}

proof fn lemma_image_views_permute(s1: Seq<FolderEntry>, s2: Seq<FolderEntry>, specs: Seq<TileSpec>, default: Size)
    requires
        s1.to_multiset() == s2.to_multiset(),
    ensures
        image_views(s1, specs, default).to_multiset() == image_views(s2, specs, default).to_multiset(),
    decreases s1.len(),
{
    broadcast use vstd::seq_lib::group_to_multiset_ensures;
    broadcast use vstd::multiset::group_multiset_axioms;
    vstd::seq_lib::to_multiset_len(s1);
    vstd::seq_lib::to_multiset_len(s2);
    if s1.len() == 0 {
        assert(s2.len() == 0);
        assert(s1 =~= s2);
    } else {
        let x = s1.last();
        let r1 = s1.drop_last();
        assert(s2.to_multiset().count(x) > 0);
        let m = choose|m: int| 0 <= m < s2.len() && s2[m] == x;
        let r2 = s2.remove(m);
        assert(s1 =~= r1.push(x));
        vstd::seq_lib::to_multiset_remove(s2, m);
        assert(r1.to_multiset() =~= r2.to_multiset()) by {
            assert forall|v: FolderEntry| #[trigger] r1.to_multiset().count(v) == r2.to_multiset().count(v) by {
                assert(s1.to_multiset().count(v) == s2.to_multiset().count(v));
                assert(r1.to_multiset().insert(x) == r1.to_multiset().add(vstd::multiset::Multiset::singleton(x)));
                assert(s2.to_multiset().remove(x) == r2.to_multiset());
            }
        }
        lemma_image_views_permute(r1, r2, specs, default);
        assert(s2 =~= r2.insert(m, x));
        lemma_image_views_insert(r2, m, x, specs, default);
        assert(s1.drop_last() =~= r1);
        vstd::seq_lib::lemma_multiset_commutative(image_views(r1, specs, default), view_of(x, specs, default));
    }
}

/// The plan of a folder does not depend on the order in which the folder
/// lists its entries: entries that are a permutation of each other hold as
/// many supported images and give the same plan.
pub proof fn lemma_plan_ignores_listing_order(e1: Seq<FolderEntry>, e2: Seq<FolderEntry>, specs: Seq<TileSpec>, default: Size)
    requires
        e1.to_multiset() == e2.to_multiset(),
    ensures
        e1.filter(|e: FolderEntry| is_image_entry(e)).len() == e2.filter(|e: FolderEntry| is_image_entry(e)).len(),
        sort_seq(planned_images(e1, specs, default), plan_order()) == sort_seq(planned_images(e2, specs, default), plan_order()),
{
    lemma_image_views_filter(e1, specs, default);
    lemma_image_views_filter(e2, specs, default);
    lemma_image_views_permute(e1, e2, specs, default);
    lemma_plan_order_total();
    let v1 = planned_images(e1, specs, default);
    let v2 = planned_images(e2, specs, default);
    vstd::seq_lib::to_multiset_len(v1);
    vstd::seq_lib::to_multiset_len(v2);
    lemma_sort_seq(v1, plan_order());
    lemma_sort_seq(v2, plan_order());
    lemma_sorted_unique(sort_seq(v1, plan_order()), sort_seq(v2, plan_order()), plan_order());
}

/// Whether planned image `a` comes before `b` (`plan_before`).
fn comes_before(a: &PlannedImage, b: &PlannedImage) -> (r: bool)
    ensures
        r == plan_before(a@, b@),
{
    if a.size.h != b.size.h {
        return a.size.h > b.size.h;
    }
    let name_lt = str_less(a.name.as_str(), b.name.as_str());
    let name_gt = str_less(b.name.as_str(), a.name.as_str());
    if name_lt || name_gt {
        return name_lt;
    }
    proof {
        if a.name@ != b.name@ {
            lemma_chars_less_total(a.name@, b.name@);
        }
    }
    let path_lt = str_less(a.path.as_str(), b.path.as_str());
    let path_gt = str_less(b.path.as_str(), a.path.as_str());
    if path_lt || path_gt {
        return path_lt;
    }
    proof {
        if a.path@ != b.path@ {
            lemma_chars_less_total(a.path@, b.path@);
        }
    }
    a.size.w < b.size.w
}

/// Inserts `p` into `plan` before the first image that `p` comes before.
fn insert_planned(plan: &mut Vec<PlannedImage>, p: PlannedImage)
    ensures
        plan_views(final(plan)@) == insert_sorted(plan_views(old(plan)@), p@, plan_order()),
{
    let ghost views = plan_views(plan@);
    let mut k: usize = 0;
    while k < plan.len() && !comes_before(&p, &plan[k])
        invariant
            k <= plan@.len(),
            views == plan_views(plan@),
            plan@ == old(plan)@,
            forall|j: int| 0 <= j < k ==> !plan_order()(p@, #[trigger] views[j]),
        decreases plan@.len() - k,
    {
        k = k + 1;
    }
    proof {
        lemma_insert_sorted_at(views, p@, plan_order(), k as int);
    }
    plan.insert(k, p);
    assert(plan_views(plan@) =~= views.insert(k as int, p@));
}

/// The images of the folder `entries` in the order they are packed, each
/// with its name and tile size.
///
/// In turn, as the atlas is built: no spec's tile may be wider than the
/// atlas (`TileWiderThanAtlas`); the folder must hold a supported image
/// (`EmptyFolder`); every regular expression must compile (`InvalidRegex`,
/// for the first that does not). Then every image gets the size of the first
/// spec that matches its file name, or the default size, and the images are
/// ordered by `plan_before`: tallest tile first, then by name, so the plan
/// does not depend on the order in which the folder lists its entries.
pub fn plan_atlas(settings: &Settings, entries: &Vec<FolderEntry>) -> (r: Result<Vec<PlannedImage>, AtlasError>)
    ensures
        (r matches Err(AtlasError::TileWiderThanAtlas(found))) <==> settings.specs@.filter(
            |s: TileSpec| wider_than(s, settings.atlas_width),
        ).len() > 0,
        r matches Err(AtlasError::TileWiderThanAtlas(found)) ==> found@ == settings.specs@.filter(
            |s: TileSpec| wider_than(s, settings.atlas_width),
        ),
        (r matches Err(AtlasError::EmptyFolder)) <==> settings.specs@.filter(
            |s: TileSpec| wider_than(s, settings.atlas_width),
        ).len() == 0 && entries@.filter(|e: FolderEntry| is_image_entry(e)).len() == 0,
        (r matches Err(AtlasError::InvalidRegex(_, _))) <==> settings.specs@.filter(
            |s: TileSpec| wider_than(s, settings.atlas_width),
        ).len() == 0 && entries@.filter(|e: FolderEntry| is_image_entry(e)).len() > 0 && !all_regexes_compile(
            settings.specs@,
        ),
        r matches Err(AtlasError::InvalidRegex(p, _)) ==> exists|i: int|
            first_invalid_regex(settings.specs@, i) && settings.specs@[i].spec_identifier() == NameIdentifier::Regex(p),
        r is Err ==> (r matches Err(AtlasError::TileWiderThanAtlas(_))) || (r matches Err(AtlasError::EmptyFolder))
            || (r matches Err(AtlasError::InvalidRegex(_, _))),
        r matches Ok(plan) ==> plan@.len() > 0 && heights_descending(plan_views(plan@)),
        r matches Ok(plan) ==> plan_views(plan@).to_multiset() == planned_images(
            entries@,
            settings.specs@,
            settings.default_size,
        ).to_multiset(),
        r matches Ok(plan) ==> plan_views(plan@) == sort_seq(
            planned_images(entries@, settings.specs@, settings.default_size),
            plan_order(),
        ),
{
    check_healthy_settings(settings)?;
    let images = extract_image_paths(entries);
    if images.len() == 0 {
        return Err(AtlasError::EmptyFolder);
    }
    let compiled = settings.get_compiled_specs()?;
    let ghost views = images@.map_values(|e: FolderEntry| planned_view(e, settings.specs@, settings.default_size));
    let mut plan: Vec<PlannedImage> = Vec::new();
    let mut i: usize = 0;
    while i < images.len()
        invariant
            i <= images@.len(),
            views == images@.map_values(|e: FolderEntry| planned_view(e, settings.specs@, settings.default_size)),
            crate::selection::compiled_specs(compiled@, settings.specs@),
            plan_views(plan@) == sort_seq(views.take(i as int), plan_order()),
        decreases images@.len() - i,
    {
        let e = &images[i];
        let size = size_for(&compiled, settings.default_size, e.file_name.as_str(), Ghost(settings.specs@));
        let p = PlannedImage { name: stem_of(e.file_name.as_str()), path: e.path.clone(), size };
        assert(p@ == views[i as int]);
        assert(views.take(i + 1).drop_last() =~= views.take(i as int));
        insert_planned(&mut plan, p);
        i = i + 1;
    }
    assert(views.take(i as int) =~= views);
    assert(views == planned_images(entries@, settings.specs@, settings.default_size));
    proof {
        lemma_plan_order_total();
        lemma_sort_seq(views, plan_order());
        lemma_plan_sorted_descends(sort_seq(views, plan_order()));
    }
    Ok(plan)
}

} // verus!
