//! The values that describe a configuration and a packed atlas.

use vstd::prelude::*;
use vstd::std_specs::cmp::{PartialEqSpec, PartialEqSpecImpl};
use vstd::std_specs::convert::FromSpecImpl;

verus! {

/// Position of a tile in the atlas, in pixels from the top-left corner.
#[derive(Clone, Copy, Debug, PartialEq, Eq, Structural)]
pub struct Pos {
    pub x: u32,
    pub y: u32,
}

impl From<(u32, u32)> for Pos {
    fn from(value: (u32, u32)) -> (r: Self) {
        Pos { x: value.0, y: value.1 }
    }
}

impl FromSpecImpl<(u32, u32)> for Pos {
    open spec fn obeys_from_spec() -> bool {
        true
    }

    open spec fn from_spec(v: (u32, u32)) -> Self {
        Pos { x: v.0, y: v.1 }
    }
}

/// The width and height of a tile, in pixels.
#[derive(Clone, Copy, Debug, PartialEq, Eq, Structural)]
pub struct Size {
    /// width in pixels
    pub w: u32,
    /// height in pixels
    pub h: u32,
}

impl From<(u32, u32)> for Size {
    fn from(value: (u32, u32)) -> (r: Self) {
        Size { w: value.0, h: value.1 }
    }
}

impl FromSpecImpl<(u32, u32)> for Size {
    open spec fn obeys_from_spec() -> bool {
        true
    }

    open spec fn from_spec(v: (u32, u32)) -> Self {
        Size { w: v.0, h: v.1 }
    }
}

/// Identifies which image files a [`TileSpec`] applies to.
///
/// Matching is attempted against the file name of each image:
/// - `Stem`: matches the file name without its extension.
/// - `FileName`: matches the full file name, extension included.
/// - `Regex`: the full file name must contain a match of the regular
///   expression (e.g. `"big_item_.*\\.png"`).
#[derive(Debug)]
pub enum NameIdentifier {
    Stem(String),
    FileName(String),
    Regex(String),
}

impl Clone for NameIdentifier {
    fn clone(&self) -> (r: Self)
        ensures
            r == *self,
    {
        match self {
            NameIdentifier::Stem(s) => NameIdentifier::Stem(s.clone()),
            NameIdentifier::FileName(s) => NameIdentifier::FileName(s.clone()),
            NameIdentifier::Regex(s) => NameIdentifier::Regex(s.clone()),
        }
    }
}

impl PartialEq for NameIdentifier {
    fn eq(&self, other: &Self) -> (r: bool) {
        match (self, other) {
            (NameIdentifier::Stem(a), NameIdentifier::Stem(b)) => *a == *b,
            (NameIdentifier::FileName(a), NameIdentifier::FileName(b)) => *a == *b,
            (NameIdentifier::Regex(a), NameIdentifier::Regex(b)) => *a == *b,
            _ => false,
        }
    }
}

impl PartialEqSpecImpl for NameIdentifier {
    open spec fn obeys_eq_spec() -> bool {
        true
    }

    open spec fn eq_spec(&self, other: &Self) -> bool {
        match (self, other) {
            (NameIdentifier::Stem(a), NameIdentifier::Stem(b)) => a@ == b@,
            (NameIdentifier::FileName(a), NameIdentifier::FileName(b)) => a@ == b@,
            (NameIdentifier::Regex(a), NameIdentifier::Regex(b)) => a@ == b@,
            _ => false,
        }
    }
}

impl Eq for NameIdentifier {
}

/// Pairs a [`NameIdentifier`] with the [`Size`] that its matching images
/// are sliced into.
#[derive(Debug)]
pub struct TileSpec {
    pub(crate) identifier: NameIdentifier,
    pub(crate) size: Size,
}

impl Clone for TileSpec {
    fn clone(&self) -> (r: Self)
        ensures
            r == *self,
    {
        TileSpec { identifier: self.identifier.clone(), size: self.size }
    }
}

impl PartialEq for TileSpec {
    fn eq(&self, other: &Self) -> (r: bool) {
        self.identifier.eq(&other.identifier) && self.size == other.size
    }
}

impl PartialEqSpecImpl for TileSpec {
    open spec fn obeys_eq_spec() -> bool {
        true
    }

    open spec fn eq_spec(&self, other: &Self) -> bool {
        PartialEqSpec::eq_spec(&self.spec_identifier(), &other.spec_identifier()) && self.spec_size() == other.spec_size()
    }
}

impl Eq for TileSpec {
}

impl TileSpec {
    /// The identifier that selects the images of this spec.
    pub closed spec fn spec_identifier(&self) -> NameIdentifier {
        self.identifier
    }

    /// The tile size of this spec.
    pub closed spec fn spec_size(&self) -> Size {
        self.size
    }

    /// Constructs a [`TileSpec`] that matches by file stem
    /// (file name without extension).
    pub fn new_stem(w: u32, h: u32, stem: String) -> (r: Self)
        ensures
            r.spec_size() == (Size { w, h }),
            r.spec_identifier() == NameIdentifier::Stem(stem),
    {
        Self::new(w, h, NameIdentifier::Stem(stem))
    }

    /// Constructs a [`TileSpec`] that matches file names against a
    /// regular expression.
    pub fn new_regex(w: u32, h: u32, regex: String) -> (r: Self)
        ensures
            r.spec_size() == (Size { w, h }),
            r.spec_identifier() == NameIdentifier::Regex(regex),
    {
        Self::new(w, h, NameIdentifier::Regex(regex))
    }

    /// Constructs a [`TileSpec`] from an explicit [`NameIdentifier`].
    pub fn new(w: u32, h: u32, identifier: NameIdentifier) -> (r: Self)
        ensures
            r.spec_size() == (Size { w, h }),
            r.spec_identifier() == identifier,
    {
        TileSpec { identifier, size: Size { w, h } }
    }

    /// The identifier that selects the images of this spec.
    pub fn identifier(&self) -> (r: &NameIdentifier)
        ensures
            *r == self.spec_identifier(),
    {
        &self.identifier
    }

    /// The tile size of this spec.
    pub fn size(&self) -> (r: Size)
        ensures
            r == self.spec_size(),
    {
        self.size
    }
}

/// Configuration controlling how an atlas is built.
///
/// Each entry in `specs` pairs an identifier with a tile size; the first spec
/// that matches an image wins. `default_size` applies to any image no spec
/// matches.
#[derive(Debug)]
pub struct Settings {
    pub default_size: Size,
    pub atlas_width: u32,
    pub specs: Vec<TileSpec>,
}

impl PartialEq for Settings {
    fn eq(&self, other: &Self) -> (r: bool) {
        self.default_size == other.default_size && self.atlas_width == other.atlas_width && self.specs.eq(&other.specs)
    }
}

impl PartialEqSpecImpl for Settings {
    open spec fn obeys_eq_spec() -> bool {
        true
    }

    open spec fn eq_spec(&self, other: &Self) -> bool {
        &&& self.default_size == other.default_size
        &&& self.atlas_width == other.atlas_width
        &&& PartialEqSpec::eq_spec(&self.specs, &other.specs)
    }
}

impl Eq for Settings {
}

/// The tiles sliced from one source image: their shared [`Size`] and the
/// position of each tile, in row-major order (left-to-right, top-to-bottom)
/// as cut from the source.
#[derive(Debug)]
pub struct AtlasEntry {
    pub size: Size,
    pub pos: Vec<Pos>,
}

impl From<(Size, Vec<Pos>)> for AtlasEntry {
    fn from(value: (Size, Vec<Pos>)) -> (r: Self) {
        AtlasEntry { size: value.0, pos: value.1 }
    }
}

impl PartialEq for AtlasEntry {
    fn eq(&self, other: &Self) -> (r: bool) {
        if self.size != other.size || self.pos.len() != other.pos.len() {
            return false;
        }
        let mut i: usize = 0;
        while i < self.pos.len()
            invariant
                self.pos@.len() == other.pos@.len(),
                i <= self.pos@.len(),
                forall|j: int| 0 <= j < i ==> self.pos@[j] == other.pos@[j],
            decreases self.pos@.len() - i,
        {
            if self.pos[i] != other.pos[i] {
                return false;
            }
            i = i + 1;
        }
        assert(self.pos@ =~= other.pos@);
        true
    }
}

impl PartialEqSpecImpl for AtlasEntry {
    open spec fn obeys_eq_spec() -> bool {
        true
    }

    open spec fn eq_spec(&self, other: &Self) -> bool {
        self.size == other.size && self.pos@ == other.pos@
    }
}

impl Eq for AtlasEntry {
}

impl FromSpecImpl<(Size, Vec<Pos>)> for AtlasEntry {
    open spec fn obeys_from_spec() -> bool {
        true
    }

    open spec fn from_spec(v: (Size, Vec<Pos>)) -> Self {
        AtlasEntry { size: v.0, pos: v.1 }
    }
}

/// The result of packing: each image's name (its file stem) with its
/// [`AtlasEntry`], and the final dimensions of the atlas.
///
/// `entries` is kept in strictly increasing order of the names (see
/// `entries::keys_sorted`), the order of a map keyed by name, so entries
/// come out in a sorted, deterministic order.
#[derive(Debug)]
pub struct Atlas {
    pub entries: Vec<(String, AtlasEntry)>,
    pub size: Size,
}

/// Whether two named entries are equal: the same name and equal entries.
pub open spec fn same_entry(x: (String, AtlasEntry), y: (String, AtlasEntry)) -> bool {
    x.0@ == y.0@ && PartialEqSpec::eq_spec(&x.1, &y.1)
}

impl PartialEq for Atlas {
    fn eq(&self, other: &Self) -> (r: bool) {
        if self.size != other.size || self.entries.len() != other.entries.len() {
            return false;
        }
        let mut i: usize = 0;
        while i < self.entries.len()
            invariant
                self.entries@.len() == other.entries@.len(),
                i <= self.entries@.len(),
                forall|j: int| 0 <= j < i ==> same_entry(#[trigger] self.entries@[j], other.entries@[j]),
            decreases self.entries@.len() - i,
        {
            let a = &self.entries[i];
            let b = &other.entries[i];
            let same_key = a.0 == b.0;
            let equal_entries = a.1.eq(&b.1);
            assert(same_key == (a.0@ == b.0@));
            assert(equal_entries == PartialEqSpec::eq_spec(&a.1, &b.1));
            if !same_key || !equal_entries {
                return false;
            }
            assert(*a == self.entries@[i as int] && *b == other.entries@[i as int]);
            assert(same_entry(self.entries@[i as int], other.entries@[i as int]));
            i = i + 1;
        }
        true
    }
}

impl PartialEqSpecImpl for Atlas {
    open spec fn obeys_eq_spec() -> bool {
        true
    }

    open spec fn eq_spec(&self, other: &Self) -> bool {
        &&& self.size == other.size
        &&& self.entries@.len() == other.entries@.len()
        &&& forall|j: int| 0 <= j < self.entries@.len() ==> same_entry(#[trigger] self.entries@[j], other.entries@[j])
    }
}

impl Eq for Atlas {
}

/// Whether a repack was needed when the atlas was built incrementally.
#[derive(Clone, Copy, Debug, PartialEq, Eq, Structural)]
pub enum BuildOutcome {
    /// Sources changed (or no prior atlas existed); a new atlas was written.
    Rebuilt,
    /// Sources unchanged; existing files left untouched.
    Unchanged,
}

impl BuildOutcome {
    /// The outcome of an incremental build: nothing is repacked when the
    /// fingerprint stored with the existing atlas equals that of the current
    /// sources; a missing atlas, or a different fingerprint, means a rebuild.
    pub fn from_fingerprints(stored: Option<u64>, current: u64) -> (r: BuildOutcome)
        ensures
            r == (if stored == Some(current) { BuildOutcome::Unchanged } else { BuildOutcome::Rebuilt }),
    {
        match stored {
            Some(h) if h == current => BuildOutcome::Unchanged,
            _ => BuildOutcome::Rebuilt,
        }
    }
}

/// One entry of the folder that an atlas is built from, as read from disk.
#[derive(Debug)]
pub struct FolderEntry {
    /// The entry's path, as it is opened and reported.
    pub path: String,
    /// The last component of the path.
    pub file_name: String,
    /// Whether the entry is a directory.
    pub is_dir: bool,
}

impl Clone for FolderEntry {
    fn clone(&self) -> (r: Self)
        ensures
            r == *self,
    {
        FolderEntry { path: self.path.clone(), file_name: self.file_name.clone(), is_dir: self.is_dir }
    }
}

} // verus!
