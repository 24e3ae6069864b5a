//! The ways building an atlas can fail.

use vstd::prelude::*;
use crate::types::{Size, TileSpec};

verus! {

/// Why an atlas could not be built.
#[derive(Debug)]
pub enum AtlasError {
    /// Specs whose tile width exceeds the atlas width; the atlas width has
    /// to be at least the widest tile width.
    TileWiderThanAtlas(Vec<TileSpec>),
    /// The folder holds no supported image.
    EmptyFolder,
    /// A spec holds a regular expression that does not compile: the pattern,
    /// and the error of the `regex` crate.
    InvalidRegex(String, regex::Error),
    /// An image's dimensions are not a whole multiple of its tile size.
    TileGridMismatch { size: Size, path: String },
    /// Two images have the same name.
    DuplicateKey(String),
}

} // verus!
