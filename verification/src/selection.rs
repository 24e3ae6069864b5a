//! Which tile size each image gets: the specs of the settings are compiled
//! and matched against the image's file name; the first spec that matches
//! wins, and the default size applies when none does.

use vstd::prelude::*;
use crate::error::AtlasError;
use crate::names::{file_stem, has_no_dot, lemma_stem_before_last_dot, lemma_stem_is_name_or_before_dot, lemma_stem_without_dot, stem_of};
use crate::pattern::{compile_regex, regex_compiles, regex_is_match, regex_matches, CompiledRegex};
use crate::types::{NameIdentifier, Settings, Size, TileSpec};

verus! {

/// Whether the identifier `id` matches the file name `name`: the stem equals
/// it, the whole name equals it, or the expression matches somewhere in the
/// name.
pub open spec fn identifier_matches(id: NameIdentifier, name: Seq<char>) -> bool {
    match id {
        NameIdentifier::Stem(s) => file_stem(name) == s@,
        NameIdentifier::FileName(s) => name == s@,
        NameIdentifier::Regex(p) => regex_is_match(p@, name),
    }
}

/// A stem spec `Stem(s)` matches a file name only when the name is `s`
/// itself or `s`, a dot and a dot-free extension: `"hero"` matches
/// `"hero.png"` but not `"hero_shadow.png"` or `"hero.old.png"`.
pub proof fn lemma_stem_matches_only_its_files(s: String, name: Seq<char>)
    ensures
        identifier_matches(NameIdentifier::Stem(s), name) ==> name == s@ || exists|e: Seq<char>|
            has_no_dot(e) && name == #[trigger] (s@ + seq!['.'] + e),
{
    lemma_stem_is_name_or_before_dot(name);
}

/// A stem spec `Stem(s)` matches every file named `s`, a dot and a dot-free
/// extension, and, when `s` holds no dot, the file named `s`.
pub proof fn lemma_stem_matches_its_files(s: String, e: Seq<char>)
    ensures
        s@.len() > 0 && has_no_dot(e) && s@ + seq!['.'] + e != seq!['.', '.'] ==> identifier_matches(
            NameIdentifier::Stem(s),
            s@ + seq!['.'] + e,
        ),
        has_no_dot(s@) ==> identifier_matches(NameIdentifier::Stem(s), s@),
{
    if s@.len() > 0 && has_no_dot(e) && s@ + seq!['.'] + e != seq!['.', '.'] {
        lemma_stem_before_last_dot(s@, e);
    }
    if has_no_dot(s@) {
        lemma_stem_without_dot(s@);
    }
}

/// The size of a file that a leading stem spec does not match is what the
/// other specs give it: with `Stem(s)` first, a name that is neither `s` nor
/// `s`, a dot and a dot-free extension (such as `s` followed by more
/// characters) gets the size of the next spec that matches, or the default.
pub proof fn lemma_unmatched_stem_passes_on(specs: Seq<TileSpec>, default: Size, name: Seq<char>, s: String)
    requires
        specs.len() > 0,
        specs[0].spec_identifier() == NameIdentifier::Stem(s),
        name != s@,
        forall|e: Seq<char>| has_no_dot(e) ==> name != #[trigger] (s@ + seq!['.'] + e),
    ensures
        resolve_size(specs, default, name) == resolve_size(specs.drop_first(), default, name),
{
    lemma_stem_matches_only_its_files(s, name);
}

/// Whether the identifier `id` holds a regular expression that does not
/// compile.
pub open spec fn invalid_regex(id: NameIdentifier) -> bool {
    match id {
        NameIdentifier::Regex(p) => !regex_compiles(p@),
        _ => false,
    }
}

/// Whether `i` is the first spec whose regular expression does not compile.
pub open spec fn first_invalid_regex(specs: Seq<TileSpec>, i: int) -> bool {
    &&& 0 <= i < specs.len()
    &&& invalid_regex(specs[i].spec_identifier())
    &&& forall|j: int| 0 <= j < i ==> !invalid_regex(#[trigger] specs[j].spec_identifier())
}

/// Whether every regular expression of `specs` compiles.
pub open spec fn all_regexes_compile(specs: Seq<TileSpec>) -> bool {
    forall|i: int| 0 <= i < specs.len() ==> !invalid_regex(#[trigger] specs[i].spec_identifier())
}

/// The tile size of the file named `name`: that of the first of `specs`
/// whose identifier matches it, else `default`.
pub open spec fn resolve_size(specs: Seq<TileSpec>, default: Size, name: Seq<char>) -> Size
    decreases specs.len(),
{
    if specs.len() == 0 {
        default
    } else if identifier_matches(specs[0].spec_identifier(), name) {
        specs[0].spec_size()
    } else {
        resolve_size(specs.drop_first(), default, name)
    }
}

/// An identifier ready for matching: a regular expression is compiled.
pub(crate) enum CompiledIdentifier {
    Stem(String),
    FileName(String),
    Regex(CompiledRegex),
}

/// Whether `c` is the compilation of `id`.
pub(crate) open spec fn compiled_from(c: CompiledIdentifier, id: NameIdentifier) -> bool {
    match (c, id) {
        (CompiledIdentifier::Stem(a), NameIdentifier::Stem(b)) => a@ == b@,
        (CompiledIdentifier::FileName(a), NameIdentifier::FileName(b)) => a@ == b@,
        (CompiledIdentifier::Regex(re), NameIdentifier::Regex(p)) => re@ == p@,
        _ => false,
    }
}

impl CompiledIdentifier {
    /// Compiles `id`; an invalid regular expression is an error that holds
    /// the pattern.
    pub(crate) fn compile(id: &NameIdentifier) -> (r: Result<CompiledIdentifier, AtlasError>)
        ensures
            r is Err <==> invalid_regex(*id),
            r matches Ok(c) ==> compiled_from(c, *id),
            r matches Err(e) ==> (e matches AtlasError::InvalidRegex(p, _) && *id == NameIdentifier::Regex(p)),
    {
        match id {
            NameIdentifier::Regex(s) => match compile_regex(s.as_str()) {
                Ok(re) => Ok(CompiledIdentifier::Regex(re)),
                Err(e) => Err(AtlasError::InvalidRegex(s.clone(), e)),
            },
            NameIdentifier::Stem(s) => Ok(CompiledIdentifier::Stem(s.clone())),
            NameIdentifier::FileName(s) => Ok(CompiledIdentifier::FileName(s.clone())),
        }
    }

    /// Whether the identifier matches the file name `name`.
    pub(crate) fn matches(&self, name: &str, Ghost(id): Ghost<NameIdentifier>) -> (r: bool)
        requires
            compiled_from(*self, id),
        ensures
            r == identifier_matches(id, name@),
    {
        match self {
            CompiledIdentifier::Stem(s) => {
                let stem = stem_of(name);
                stem == *s
            },
            CompiledIdentifier::FileName(s) => name.to_owned() == *s,
            CompiledIdentifier::Regex(re) => regex_matches(re, name),
        }
    }
}

/// A spec whose identifier is compiled.
pub(crate) struct TileSpecComp {
    pub(crate) identifier: CompiledIdentifier,
    pub(crate) size: Size,
}

/// Whether `comp` is the compilation of `specs`, spec by spec.
pub(crate) open spec fn compiled_specs(comp: Seq<TileSpecComp>, specs: Seq<TileSpec>) -> bool {
    &&& comp.len() == specs.len()
    &&& forall|i: int| 0 <= i < specs.len() ==> {
        &&& compiled_from(#[trigger] comp[i].identifier, specs[i].spec_identifier())
        &&& comp[i].size == specs[i].spec_size()
    }
}

impl Settings {
    /// Compiles every spec, in order; the first invalid regular expression
    /// is the error.
    pub(crate) fn get_compiled_specs(&self) -> (r: Result<Vec<TileSpecComp>, AtlasError>)
        ensures
            r is Ok <==> all_regexes_compile(self.specs@),
            r matches Ok(comp) ==> compiled_specs(comp@, self.specs@),
            r matches Err(e) ==> exists|i: int|
                first_invalid_regex(self.specs@, i) && (e matches AtlasError::InvalidRegex(p, _)
                    && self.specs@[i].spec_identifier() == NameIdentifier::Regex(p)),
    {
        let mut comp: Vec<TileSpecComp> = Vec::new();
        let mut i: usize = 0;
        while i < self.specs.len()
            invariant
                i <= self.specs@.len(),
                compiled_specs(comp@, self.specs@.take(i as int)),
                forall|j: int| 0 <= j < i ==> !invalid_regex(#[trigger] self.specs@[j].spec_identifier()),
            decreases self.specs@.len() - i,
        {
            let spec = &self.specs[i];
            match CompiledIdentifier::compile(spec.identifier()) {
                Ok(c) => {
                    comp.push(TileSpecComp { identifier: c, size: spec.size() });
                },
                Err(e) => {
                    assert(first_invalid_regex(self.specs@, i as int));
                    return Err(e);
                },
            }
            i = i + 1;
        }
        assert(self.specs@.take(i as int) =~= self.specs@);
        Ok(comp)
    }
}

/// The tile size of the file named `name` under the compiled `comp` of
/// `specs` (see `resolve_size`).
pub(crate) fn size_for(comp: &Vec<TileSpecComp>, default: Size, name: &str, Ghost(specs): Ghost<Seq<TileSpec>>) -> (r: Size)
    requires
        compiled_specs(comp@, specs),
    ensures
        r == resolve_size(specs, default, name@),
{
    let mut i: usize = 0;
    assert(specs.skip(0) =~= specs);
    while i < comp.len()
        invariant
            i <= comp@.len(),
            compiled_specs(comp@, specs),
            resolve_size(specs, default, name@) == resolve_size(specs.skip(i as int), default, name@),
        decreases comp@.len() - i,
    {
        let c = &comp[i];
        assert(specs.skip(i as int)[0] == specs[i as int]);
        if c.identifier.matches(name, Ghost(specs[i as int].spec_identifier())) {
            return c.size;
        }
        assert(specs.skip(i as int).drop_first() =~= specs.skip(i + 1));
        i = i + 1;
    }
    default
}

/// Whether a spec's tile is wider than the atlas.
pub open spec fn wider_than(spec: TileSpec, atlas_width: u32) -> bool {
    spec.spec_size().w > atlas_width
}

/// The specs whose tile is wider than an atlas `atlas_width` pixels wide, in
/// their order: those that `check_healthy_settings` reports.
pub open spec fn too_wide_specs(specs: Seq<TileSpec>, atlas_width: u32) -> Seq<TileSpec> {
    specs.filter(|s: TileSpec| wider_than(s, atlas_width))
}

/// The specs that the settings are rejected for are exactly those whose tile
/// width exceeds the atlas width, whatever their height: the settings pass
/// when every tile is at most as wide as the atlas, and the rejected specs
/// are those of greater width, in their order.
pub proof fn lemma_rejected_specs_are_too_wide(specs: Seq<TileSpec>, atlas_width: u32)
    ensures
        too_wide_specs(specs, atlas_width).len() == 0 <==> forall|i: int|
            0 <= i < specs.len() ==> #[trigger] specs[i].spec_size().w <= atlas_width,
        forall|t: TileSpec| #[trigger]
            too_wide_specs(specs, atlas_width).contains(t) <==> specs.contains(t) && t.spec_size().w > atlas_width,
    decreases specs.len(),
{
    reveal_with_fuel(Seq::filter, 1);
    let f = |s: TileSpec| wider_than(s, atlas_width);
    if specs.len() > 0 {
        lemma_rejected_specs_are_too_wide(specs.drop_last(), atlas_width);
        let prev = specs.drop_last().filter(f);
        assert forall|t: TileSpec| #[trigger] specs.contains(t) <==> specs.drop_last().contains(t) || t == specs.last() by {
            if specs.contains(t) {
                let i = choose|i: int| 0 <= i < specs.len() && specs[i] == t;
                if i < specs.len() - 1 {
                    assert(specs.drop_last()[i] == t);
                }
            }
            if specs.drop_last().contains(t) {
                let i = choose|i: int| 0 <= i < specs.drop_last().len() && specs.drop_last()[i] == t;
                assert(specs[i] == t);
            }
            if t == specs.last() {
                assert(specs[specs.len() - 1] == t);
            }
        }
        if f(specs.last()) {
            assert(specs.filter(f) == prev.push(specs.last()));
            assert(specs.filter(f).contains(specs.last())) by {
                assert(prev.push(specs.last())[prev.len() as int] == specs.last());
            }
            assert forall|t: TileSpec| #[trigger] prev.push(specs.last()).contains(t) <==> prev.contains(t) || t == specs.last() by {
                if prev.push(specs.last()).contains(t) {
                    let i = choose|i: int| 0 <= i < prev.len() + 1 && prev.push(specs.last())[i] == t;
                    if i < prev.len() {
                        assert(prev[i] == t);
                    }
                }
                if prev.contains(t) {
                    let i = choose|i: int| 0 <= i < prev.len() && prev[i] == t;
                    assert(prev.push(specs.last())[i] == t);
                }
            }
        } else {
            assert(specs.filter(f) == prev);
        }
        assert((forall|i: int| 0 <= i < specs.len() ==> #[trigger] specs[i].spec_size().w <= atlas_width) <==> (
        forall|i: int| 0 <= i < specs.drop_last().len() ==> #[trigger] specs.drop_last()[i].spec_size().w <= atlas_width)
            && specs.last().spec_size().w <= atlas_width) by {
            if forall|i: int| 0 <= i < specs.drop_last().len() ==> #[trigger] specs.drop_last()[i].spec_size().w <= atlas_width {
                assert forall|i: int| 0 <= i < specs.len() - 1 implies #[trigger] specs[i].spec_size().w <= atlas_width by {
                    assert(specs[i] == specs.drop_last()[i]);
                }
            }
        }
    } else {
        assert(specs.filter(f) =~= Seq::<TileSpec>::empty());
    }
}

/// Checks that no spec's tile is wider than the atlas; the error holds every
/// spec whose tile is, in order.
pub fn check_healthy_settings(settings: &Settings) -> (r: Result<(), AtlasError>)
    ensures
        r is Ok <==> settings.specs@.filter(|s: TileSpec| wider_than(s, settings.atlas_width)).len() == 0,
        r matches Err(e) ==> (e matches AtlasError::TileWiderThanAtlas(found)
            && found@ == settings.specs@.filter(|s: TileSpec| wider_than(s, settings.atlas_width))),
{
    let mut found: Vec<TileSpec> = Vec::new();
    let mut i: usize = 0;
    while i < settings.specs.len()
        invariant
            i <= settings.specs@.len(),
            found@ == settings.specs@.take(i as int).filter(|s: TileSpec| wider_than(s, settings.atlas_width)),
        decreases settings.specs@.len() - i,
    {
        proof {
            reveal_with_fuel(Seq::filter, 1);
            assert(settings.specs@.take(i + 1).drop_last() =~= settings.specs@.take(i as int));
        }
        let spec = &settings.specs[i];
        if spec.size().w > settings.atlas_width {
            found.push(spec.clone());
        }
        i = i + 1;
    }
    assert(settings.specs@.take(i as int) =~= settings.specs@);
    if found.len() == 0 {
        Ok(())
    } else {
        Err(AtlasError::TileWiderThanAtlas(found))
    }
}

} // verus!
