//! Packs sprite sheets into a single texture atlas.
//!
//! The library holds the logic with its proofs: the types that describe a
//! configuration and a packed atlas, the selection of image files, the
//! resolution of each image's tile size, the ordering of the images (tallest
//! first, then by name, whatever the order of the folder's listing), the
//! shelf packing of their tiles into one growing RGBA image, and the order of
//! the source stamps whose hash fingerprints an atlas.
//!
//! Building an atlas alternates with reading files, which the caller does:
//! `plan_atlas` orders the images of a folder; `AtlasPacker::for_plan` starts
//! an atlas whose first row fits the plan's tallest tile; then, for each planned image
//! in turn, `check_tile_grid` checks the dimensions read from its header and
//! `AtlasPacker::add_image` places the tiles of the decoded image;
//! `AtlasPacker::finish` hands back the `Atlas` and its image.

pub mod entries;
pub mod error;
pub mod names;
pub mod packing;
pub mod pattern;
pub mod plan;
pub mod raster;
pub mod selection;
pub mod sorting;
pub mod stamps;
pub mod text;
pub mod types;

pub use error::AtlasError;
pub use names::extract_image_paths;
pub use packing::{check_tile_grid, AtlasPacker};
pub use plan::{plan_atlas, PlannedImage};
pub use raster::RgbaRaster;
pub use selection::check_healthy_settings;
pub use stamps::{fingerprint_sources, order_stamps, SourceStamp};
pub use types::{Atlas, AtlasEntry, BuildOutcome, FolderEntry, NameIdentifier, Pos, Settings, Size, TileSpec};
