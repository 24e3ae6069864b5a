//! Shelf packing of tiles into one growing RGBA image.
//!
//! Tiles are placed left to right into rows `atlas_width` pixels wide. When
//! the next tile does not fit into the rest of the row, a new row starts below
//! the current one, whose height is that of the row's first tile, and the
//! image grows to hold it. The placement is stated by `place_step` and
//! `place_run`; the pixels by the ghost record of every placed tile.

use vstd::prelude::*;
use crate::raster::{rgba_dimensions, crop_dynamic, crop_rect, crop_view, dynamic_dims, dynamic_pixels, grid, in_grid, new_rgba_image, replace_rgba, rgba_dims, rgba_pixels, RgbaRaster};
use crate::types::{Atlas, AtlasEntry, Pos, Size};
use crate::entries::{entry_views, has_key, insert_entry, insert_index, key_index, keys_sorted, lemma_entry_views_keys, view_has_key, EntryView};
use crate::error::AtlasError;
use crate::plan::{lemma_plan_ignores_listing_order, plan_order, plan_views, planned_images, PlanView, PlannedImage};
use crate::sorting::sort_seq;
use crate::types::{FolderEntry, TileSpec};
use image::DynamicImage;


verus! {

/// The packing cursor: the next free column `x`, the top `y` of the current
/// row, and the height `row_h` of the current row.
pub type Cursor = (int, int, int);

/// One step of the shelf packing: where a `w` x `h` tile goes, and the cursor
/// after it. A tile that would pass the right edge starts a new row at the
/// left, below the current row, and that row takes the tile's height.
pub open spec fn place_step(c: Cursor, w: int, h: int, width: int) -> (Cursor, (int, int)) {
    if c.0 + w > width {
        let y = c.1 + c.2;
        ((w, y, h), (0, y))
    } else {
        ((c.0 + w, c.1, c.2), (c.0, c.1))
    }
}

/// `n` steps of `w` x `h` tiles from cursor `c`: the final cursor and the
/// position of each tile, in order.
pub open spec fn place_run(c: Cursor, w: int, h: int, width: int, n: nat) -> (Cursor, Seq<(int, int)>)
    decreases n,
{
    if n == 0 {
        (c, Seq::empty())
    } else {
        let r = place_run(c, w, h, width, (n - 1) as nat);
        let s = place_step(r.0, w, h, width);
        (s.0, r.1.push(s.1))
    }
}

/// Whether one step stays within the machine's numbers: the cursor and the
/// image height within `u32`, and a grown image's byte length within `usize`.
pub open spec fn step_fits(c: Cursor, w: int, h: int, width: int) -> bool {
    &&& c.0 + w <= u32::MAX
    &&& c.0 + w > width ==> {
        &&& c.1 + c.2 + h <= u32::MAX
        &&& 4 * width * (c.1 + c.2 + h) <= usize::MAX
    }
}

/// Whether all `n` steps of `place_run` stay within the machine's numbers.
pub open spec fn run_fits(c: Cursor, w: int, h: int, width: int, n: nat) -> bool
    decreases n,
{
    n == 0 || (run_fits(c, w, h, width, (n - 1) as nat) && step_fits(
        place_run(c, w, h, width, (n - 1) as nat).0,
        w,
        h,
        width,
    ))
}

/// The number of whole `w` x `h` tiles in a `dims` image: columns times rows.
pub open spec fn tile_count(w: u32, h: u32, dims: (u32, u32)) -> nat {
    ((dims.0 / w) * (dims.1 / h)) as nat
}

/// `place_run` keeps every row at least as high as the tiles in it when the
/// first tile starts a new row or is no taller than the current row.
pub open spec fn run_keeps_order(c: Cursor, w: int, h: int, width: int, n: nat) -> bool {
    n == 0 || c.0 + w > width || h <= c.2
}

/// The tiles that `place_image` places for the `dims` image `origin` cut
/// into `size` tiles from cursor `c`: tile `k` is the source tile at column
/// `k % cols` and row `k / cols`, in the slot that `place_run` gives it, and
/// the atlas is as high as the rows in use once it is placed.
pub open spec fn image_tiles(origin: DynamicImage, size: Size, dims: (u32, u32), c: Cursor, width: int, n: nat) -> Seq<PlacedTile> {
    let cols = dims.0 / size.w;
    let ps = place_run(c, size.w as int, size.h as int, width, n).1;
    Seq::new(n, |k: int| PlacedTile {
        x: ps[k].0,
        y: ps[k].1,
        w: size.w as int,
        h: size.h as int,
        limit: place_run(c, size.w as int, size.h as int, width, (k + 1) as nat).0.1 + place_run(
            c,
            size.w as int,
            size.h as int,
            width,
            (k + 1) as nat,
        ).0.2,
        pixels: crop_view(origin, ((k % cols as int) * size.w) as u32, ((k / cols as int) * size.h) as u32, size.w, size.h),
    })
}

/// `place_run` gives one position per tile.
pub proof fn lemma_place_run_len(c: Cursor, w: int, h: int, width: int, n: nat)
    ensures
        place_run(c, w, h, width, n).1.len() == n,
    decreases n,
{
    if n > 0 {
        lemma_place_run_len(c, w, h, width, (n - 1) as nat);
    }
}

/// Tile `k` of a run is placed as the last of the run's first `k + 1`
/// tiles: one step from the cursor after `k` tiles, which leaves the cursor
/// on the tile's row.
pub proof fn lemma_place_run_prefix(c: Cursor, w: int, h: int, width: int, n: nat, k: nat)
    requires
        k < n,
    ensures
        place_run(c, w, h, width, n).1[k as int] == place_run(c, w, h, width, k + 1).1[k as int],
        place_run(c, w, h, width, k + 1).1[k as int] == place_step(place_run(c, w, h, width, k).0, w, h, width).1,
        place_run(c, w, h, width, k + 1).0.1 == place_run(c, w, h, width, k + 1).1[k as int].1,
    decreases n,
{
    lemma_place_run_len(c, w, h, width, k);
    if k + 1 < n {
        lemma_place_run_prefix(c, w, h, width, (n - 1) as nat, k);
        lemma_place_run_len(c, w, h, width, (n - 1) as nat);
    }
}

/// The steps of a run that fits each fit.
pub proof fn lemma_run_fits_step(c: Cursor, w: int, h: int, width: int, n: nat, k: nat)
    requires
        run_fits(c, w, h, width, n),
        k < n,
    ensures
        step_fits(place_run(c, w, h, width, k).0, w, h, width),
        run_fits(c, w, h, width, k + 1),
    decreases n,
{
    if k + 1 < n {
        lemma_run_fits_step(c, w, h, width, (n - 1) as nat, k);
    }
}

/// A tile as it was placed: its slot at `(x, y)` of `w` x `h` pixels, the
/// height `limit` of the atlas right after it was placed, and the pixels that
/// were copied into the slot, keyed by their offset in the slot.
pub struct PlacedTile {
    pub x: int,
    pub y: int,
    pub w: int,
    pub h: int,
    pub limit: int,
    pub pixels: Map<(int, int), (u8, u8, u8, u8)>,
}

/// Whether pixel `p` of tile `t` was copied into an atlas `width` pixels
/// wide: it lies left of the right edge and above the bottom edge the atlas
/// had when the tile was placed.
pub open spec fn visible(t: PlacedTile, p: (int, int), width: int) -> bool {
    t.pixels.contains_key(p) && t.x + p.0 < width && t.y + p.1 < t.limit
}

/// Whether the atlas pixels `img` show every visible pixel of every tile.
pub open spec fn shows_tiles(img: Map<(int, int), (u8, u8, u8, u8)>, tiles: Seq<PlacedTile>, width: int) -> bool {
    forall|k: int, p: (int, int)|
        0 <= k < tiles.len() && #[trigger] visible(tiles[k], p, width) ==> img[(tiles[k].x + p.0, tiles[k].y + p.1)]
            == tiles[k].pixels[p]
}

/// What atlas pixel `q` holds after `tiles` were placed in order: the pixel
/// of the last tile that was copied onto `q`, or transparent black where no
/// tile was.
pub open spec fn top_pixel(tiles: Seq<PlacedTile>, width: int, q: (int, int)) -> (u8, u8, u8, u8)
    decreases tiles.len(),
{
    if tiles.len() == 0 {
        (0u8, 0u8, 0u8, 0u8)
    } else {
        let t = tiles.last();
        let p = (q.0 - t.x, q.1 - t.y);
        if visible(t, p, width) {
            t.pixels[p]
        } else {
            top_pixel(tiles.drop_last(), width, q)
        }
    }
}

/// Whether every atlas pixel of `img` holds the last tile copied onto it
/// (`top_pixel`).
pub open spec fn shows_last(img: Map<(int, int), (u8, u8, u8, u8)>, tiles: Seq<PlacedTile>, width: int) -> bool {
    forall|q: (int, int)| #[trigger] img.contains_key(q) ==> img[q] == top_pixel(tiles, width, q)
}

/// A pixel below the bottom edge that the atlas had when each tile was
/// placed shows no tile.
pub proof fn lemma_top_pixel_below(tiles: Seq<PlacedTile>, width: int, q: (int, int))
    requires
        forall|k: int| 0 <= k < tiles.len() ==> #[trigger] tiles[k].limit <= q.1,
    ensures
        top_pixel(tiles, width, q) == (0u8, 0u8, 0u8, 0u8),
    decreases tiles.len(),
{
    if tiles.len() > 0 {
        assert(tiles.last() == tiles[tiles.len() - 1]);
        lemma_top_pixel_below(tiles.drop_last(), width, q);
    }
}

/// The state of a packing as values: the cursor, every tile placed so far
/// and the entries recorded so far.
pub struct PackState {
    pub cursor: Cursor,
    pub tiles: Seq<PlacedTile>,
    pub entries: Seq<EntryView>,
}

/// Adding the `dims` image `origin`, cut into `size` tiles, under `name` to
/// the packing `s` of an atlas `width` pixels wide: nothing, if an entry of
/// that name was recorded before; else its tiles are placed from the cursor
/// on and its entry goes in at its place by name.
pub open spec fn add_step(s: PackState, width: int, name: Seq<char>, size: Size, dims: (u32, u32), origin: DynamicImage) -> Option<PackState> {
    if view_has_key(s.entries, name) {
        None
    } else {
        let n = tile_count(size.w, size.h, dims);
        let run = place_run(s.cursor, size.w as int, size.h as int, width, n);
        Some(
            PackState {
                cursor: run.0,
                tiles: s.tiles + image_tiles(origin, size, dims, s.cursor, width, n),
                entries: s.entries.insert(key_index(s.entries, name), (name, size, run.1)),
            },
        )
    }
}

/// The pixels of the atlas of the packing `s`: as wide as the atlas and as
/// high as the rows in use, each holding the last tile copied onto it.
pub open spec fn atlas_pixels(s: PackState, width: int) -> Map<(int, int), (u8, u8, u8, u8)> {
    Map::new(|q: (int, int)| in_grid(q, width, s.cursor.1 + s.cursor.2), |q: (int, int)| top_pixel(s.tiles, width, q))
}

/// Builds an atlas image tile by tile.
pub struct AtlasPacker {
    atlas_width: u32,
    x: u32,
    y: u32,
    row_h: u32,
    image: RgbaRaster,
    entries: Vec<(String, AtlasEntry)>,
    tiles: Ghost<Seq<PlacedTile>>,
    ordered: Ghost<bool>,
}

/// Whether the positions `pos` are the positions `ps`.
pub open spec fn positions_are(pos: Seq<Pos>, ps: Seq<(int, int)>) -> bool {
    &&& pos.len() == ps.len()
    &&& forall|i: int| 0 <= i < pos.len() ==> (#[trigger] pos[i].x as int, pos[i].y as int) == ps[i]
}

impl AtlasPacker {
    /// The width of the atlas.
    pub closed spec fn width(&self) -> int {
        self.atlas_width as int
    }

    /// The packing cursor.
    pub closed spec fn cursor(&self) -> Cursor {
        (self.x as int, self.y as int, self.row_h as int)
    }

    /// The atlas image built so far.
    pub closed spec fn image(&self) -> RgbaRaster {
        self.image
    }

    /// The entries of the images placed so far.
    pub closed spec fn entries(&self) -> Seq<(String, AtlasEntry)> {
        self.entries@
    }

    /// Every tile placed so far, in order.
    pub closed spec fn tiles(&self) -> Seq<PlacedTile> {
        self.tiles@
    }

    /// Whether no tile so far was taller than the row it was placed in, as
    /// holds when tiles come tallest first.
    pub closed spec fn heights_ordered(&self) -> bool {
        self.ordered@
    }

    /// The state of the packing as values.
    pub closed spec fn state(&self) -> PackState {
        PackState { cursor: self.cursor(), tiles: self.tiles@, entries: entry_views(self.entries@) }
    }

    /// The packer's invariant.
    pub closed spec fn wf(&self) -> bool {
        let w = self.atlas_width as int;
        let cx = self.x as int;
        let cy = self.y as int;
        let rh = self.row_h as int;
        &&& cy + rh <= u32::MAX
        &&& 4 * w <= usize::MAX
        &&& keys_sorted(self.entries@)
        &&& rgba_dims(self.image) == (self.atlas_width, (cy + rh) as u32)
        &&& rgba_pixels(self.image).dom() == grid(w, cy + rh)
        &&& forall|k: int| 0 <= k < self.tiles@.len() ==> {
            let t = #[trigger] self.tiles@[k];
            &&& 0 <= t.x
            &&& 0 <= t.y
            &&& t.limit <= cy + rh
            &&& forall|p: (int, int)| #[trigger] t.pixels.contains_key(p) ==> in_grid(p, t.w, t.h)
        }
        &&& self.ordered@ ==> forall|k: int| 0 <= k < self.tiles@.len() ==> {
            let t = #[trigger] self.tiles@[k];
            ||| t.y + t.h <= cy
            ||| (t.y == cy && t.x + t.w <= cx && t.h <= rh)
        }
        &&& self.ordered@ ==> shows_tiles(rgba_pixels(self.image), self.tiles@, w)
        &&& shows_last(rgba_pixels(self.image), self.tiles@, w)
    }

    /// An empty atlas `atlas_width` pixels wide whose first row is
    /// `first_height` pixels high.
    pub fn new(atlas_width: u32, first_height: u32) -> (r: Self)
        requires
            4 * (atlas_width as int) <= usize::MAX,
            4 * (atlas_width as int) * (first_height as int) <= usize::MAX,
        ensures
            r.wf(),
            r.width() == atlas_width,
            r.cursor() == (0int, 0int, first_height as int),
            r.tiles() == Seq::<PlacedTile>::empty(),
            r.entries() == Seq::<(String, AtlasEntry)>::empty(),
            r.heights_ordered(),
    {
        let image = new_rgba_image(atlas_width, first_height);
        AtlasPacker {
            atlas_width,
            x: 0,
            y: 0,
            row_h: first_height,
            image,
            entries: Vec::new(),
            tiles: Ghost(Seq::empty()),
            ordered: Ghost(true),
        }
    }

    /// An empty atlas `atlas_width` pixels wide for the images of `plan`: its
    /// first row is as high as the tiles of the plan's first image, the
    /// tallest.
    pub fn for_plan(atlas_width: u32, plan: &Vec<PlannedImage>) -> (r: Self)
        requires
            plan@.len() > 0,
            4 * (atlas_width as int) <= usize::MAX,
            4 * (atlas_width as int) * (plan@[0].size.h as int) <= usize::MAX,
        ensures
            r.wf(),
            r.width() == atlas_width,
            r.cursor() == (0int, 0int, plan@[0].size.h as int),
            r.tiles() == Seq::<PlacedTile>::empty(),
            r.entries() == Seq::<(String, AtlasEntry)>::empty(),
            r.state() == start_state(plan_views(plan@)),
            r.heights_ordered(),
    {
        let r = AtlasPacker::new(atlas_width, plan[0].size.h);
        assert(entry_views(r.entries@) =~= Seq::<EntryView>::empty());
        r
    }

    /// Places one tile slot of `w` x `h` pixels and copies `tile` into it.
    /// Returns the slot's position.
    fn place_tile(&mut self, tile: &RgbaRaster, w: u32, h: u32) -> (pos: (u32, u32))
        requires
            old(self).wf(),
            step_fits(old(self).cursor(), w as int, h as int, old(self).width()),
            rgba_dims(*tile).0 <= w,
            rgba_dims(*tile).1 <= h,
            rgba_pixels(*tile).dom() == grid(rgba_dims(*tile).0 as int, rgba_dims(*tile).1 as int),
        ensures
            final(self).wf(),
            final(self).width() == old(self).width(),
            final(self).entries() == old(self).entries(),
            final(self).cursor() == place_step(old(self).cursor(), w as int, h as int, old(self).width()).0,
            (pos.0 as int, pos.1 as int) == place_step(old(self).cursor(), w as int, h as int, old(self).width()).1,
            final(self).tiles() == old(self).tiles().push(
                PlacedTile {
                    x: pos.0 as int,
                    y: pos.1 as int,
                    w: w as int,
                    h: h as int,
                    limit: final(self).cursor().1 + final(self).cursor().2,
                    pixels: rgba_pixels(*tile),
                },
            ),
            final(self).heights_ordered() == (old(self).heights_ordered() && (
                old(self).cursor().0 + w > old(self).width() || h <= old(self).cursor().2)),
    {
        let ghost old_tiles = self.tiles@;
        let ghost old_img = rgba_pixels(self.image);
        let ghost old_cy = self.y as int;
        let ghost old_rh = self.row_h as int;
        let ghost old_cx = self.x as int;
        let ghost width = self.atlas_width as int;
        let ghost new_row = old_cx + w > width;
        if self.x + w > self.atlas_width {
            // start a new row below the current one and grow the image to hold it
            self.y = self.y + self.row_h;
            self.row_h = h;
            let mut grown = new_rgba_image(self.atlas_width, self.row_h + self.y);
            replace_rgba(&mut grown, &self.image, 0, 0);
            self.image = grown;
            self.x = 0;
        }
        let pos = (self.x, self.y);
        let ghost mid_img = rgba_pixels(self.image);
        proof {
            // growing the image keeps every pixel of the old one
            assert forall|q: (int, int)| in_grid(q, width, old_cy + old_rh) implies #[trigger] mid_img[q] == old_img[q] by {
                if new_row {
                    assert(mid_img.contains_key(q));
                }
            }
        }
        replace_rgba(&mut self.image, tile, self.x, self.y);
        self.x = self.x + w;
        let ghost limit = self.y as int + self.row_h as int;
        let ghost new_tile = PlacedTile {
            x: pos.0 as int,
            y: pos.1 as int,
            w: w as int,
            h: h as int,
            limit,
            pixels: rgba_pixels(*tile),
        };
        proof {
            let ordered_now = self.ordered@ && (new_row || h <= old_rh);
            self.tiles@ = old_tiles.push(new_tile);
            let img = rgba_pixels(self.image);
            let tw = rgba_dims(*tile).0 as int;
            let th = rgba_dims(*tile).1 as int;
            assert(self.tiles@.drop_last() =~= old_tiles);
            assert(self.tiles@.last() == new_tile);
            assert forall|q: (int, int)| #[trigger] img.contains_key(q) implies img[q] == top_pixel(self.tiles@, width, q) by {
                let p = (q.0 - pos.0, q.1 - pos.1);
                if !in_grid(p, tw, th) {
                    if in_grid(q, width, old_cy + old_rh) {
                        assert(old_img.contains_key(q));
                    } else {
                        assert(mid_img.contains_key(q));
                        lemma_top_pixel_below(old_tiles, width, q);
                    }
                }
            }
            if ordered_now {
                assert forall|k: int, p: (int, int)|
                    0 <= k < self.tiles@.len() && #[trigger] visible(self.tiles@[k], p, width) implies
                    img[(self.tiles@[k].x + p.0, self.tiles@[k].y + p.1)] == self.tiles@[k].pixels[p] by {
                    let t = self.tiles@[k];
                    let q = (t.x + p.0, t.y + p.1);
                    if k < old_tiles.len() {
                        assert(old_tiles[k] == t);
                        assert(in_grid(p, t.w, t.h));
                        assert(visible(old_tiles[k], p, width));
                        assert(old_img[q] == t.pixels[p]);
                        assert(in_grid(q, width, old_cy + old_rh));
                        assert(mid_img[q] == old_img[q]);
                        assert(img.contains_key(q));
                        assert(!in_grid((q.0 - pos.0, q.1 - pos.1), tw, th));
                    } else {
                        assert(t == new_tile);
                        assert(in_grid(p, tw, th));
                        assert(img.contains_key(q));
                    }
                }
            }
            self.ordered@ = ordered_now;
        }
        pos
    }

    /// Cuts the `dims` image `origin` into `size` tiles, row by row and left
    /// to right within a row, and places each of them. Returns their
    /// positions, in that order.
    pub fn place_image(&mut self, size: Size, dims: (u32, u32), origin: &DynamicImage) -> (pos: Vec<Pos>)
        requires
            old(self).wf(),
            size.w > 0,
            size.h > 0,
            4 * (size.w as int) <= usize::MAX,
            4 * (size.w as int) * (size.h as int) <= usize::MAX,
            run_fits(old(self).cursor(), size.w as int, size.h as int, old(self).width(), tile_count(size.w, size.h, dims)),
        ensures
            final(self).wf(),
            final(self).width() == old(self).width(),
            final(self).entries() == old(self).entries(),
            final(self).cursor() == place_run(old(self).cursor(), size.w as int, size.h as int, old(self).width(), tile_count(size.w, size.h, dims)).0,
            pos@.len() == tile_count(size.w, size.h, dims),
            forall|i: int| 0 <= i < pos@.len() ==> (#[trigger] pos@[i].x as int, pos@[i].y as int)
                == place_run(old(self).cursor(), size.w as int, size.h as int, old(self).width(), tile_count(size.w, size.h, dims)).1[i],
            final(self).tiles() == old(self).tiles() + image_tiles(*origin, size, dims, old(self).cursor(), old(self).width(), tile_count(size.w, size.h, dims)),
            final(self).heights_ordered() == (old(self).heights_ordered() && run_keeps_order(old(self).cursor(), size.w as int, size.h as int, old(self).width(), tile_count(size.w, size.h, dims))),
    {
        let cols = dims.0 / size.w;
        let rows = dims.1 / size.h;
        let ghost w = size.w as int;
        let ghost h = size.h as int;
        let ghost width = self.atlas_width as int;
        let ghost c0 = self.cursor();
        let ghost n = tile_count(size.w, size.h, dims);
        let ghost old_tiles = self.tiles@;
        let ghost old_ordered = self.ordered@;
        let ghost keeps = run_keeps_order(c0, w, h, width, n);
        let mut pos: Vec<Pos> = Vec::new();
        let mut ty: u32 = 0;
        while ty < rows
            invariant
                self.wf(),
                self.atlas_width as int == width,
                self.entries@ == old(self).entries@,
                cols == dims.0 / size.w,
                rows == dims.1 / size.h,
                n == cols * rows,
                w == size.w as int,
                h == size.h as int,
                size.w > 0,
                size.h > 0,
                4 * (size.w as int) <= usize::MAX,
                4 * (size.w as int) * (size.h as int) <= usize::MAX,
                run_fits(c0, w, h, width, n),
                keeps == run_keeps_order(c0, w, h, width, n),
                ty <= rows,
                pos@.len() == ty * cols,
                self.cursor() == place_run(c0, w, h, width, pos@.len() as nat).0,
                forall|i: int| 0 <= i < pos@.len() ==> (#[trigger] pos@[i].x as int, pos@[i].y as int)
                    == place_run(c0, w, h, width, pos@.len() as nat).1[i],
                self.tiles@ == old_tiles + image_tiles(*origin, size, dims, c0, width, pos@.len() as nat),
                self.ordered@ == (old_ordered && (pos@.len() == 0 || keeps)),
                pos@.len() >= 1 && keeps ==> self.row_h >= h,
            decreases rows - ty,
        {
            let mut tx: u32 = 0;
            while tx < cols
                invariant
                    self.wf(),
                    self.atlas_width as int == width,
                    self.entries@ == old(self).entries@,
                    cols == dims.0 / size.w,
                    rows == dims.1 / size.h,
                    n == cols * rows,
                    w == size.w as int,
                    h == size.h as int,
                    size.w > 0,
                    size.h > 0,
                    4 * (size.w as int) <= usize::MAX,
                    4 * (size.w as int) * (size.h as int) <= usize::MAX,
                    run_fits(c0, w, h, width, n),
                    keeps == run_keeps_order(c0, w, h, width, n),
                    ty < rows,
                    tx <= cols,
                    pos@.len() == ty * cols + tx,
                    self.cursor() == place_run(c0, w, h, width, pos@.len() as nat).0,
                    forall|i: int| 0 <= i < pos@.len() ==> (#[trigger] pos@[i].x as int, pos@[i].y as int)
                        == place_run(c0, w, h, width, pos@.len() as nat).1[i],
                    self.tiles@ == old_tiles + image_tiles(*origin, size, dims, c0, width, pos@.len() as nat),
                    self.ordered@ == (old_ordered && (pos@.len() == 0 || keeps)),
                    pos@.len() >= 1 && keeps ==> self.row_h >= h,
                decreases cols - tx,
            {
                let ghost k = pos@.len() as nat;
                proof {
                    assert(k < n) by (nonlinear_arith)
                        requires
                            k == ty * cols + tx,
                            tx < cols,
                            ty < rows,
                            n == cols * rows,
                    ;
                    lemma_run_fits_step(c0, w, h, width, n, k);
                    assert(tx * size.w + size.w <= dims.0) by (nonlinear_arith)
                        requires
                            tx < cols,
                            cols == dims.0 / size.w,
                            size.w > 0,
                    {
                        assert(cols * size.w <= dims.0);
                        assert((tx + 1) * size.w <= cols * size.w);
                    }
                    assert(ty * size.h + size.h <= dims.1) by (nonlinear_arith)
                        requires
                            ty < rows,
                            rows == dims.1 / size.h,
                            size.h > 0,
                    {
                        assert(rows * size.h <= dims.1);
                        assert((ty + 1) * size.h <= rows * size.h);
                    }
                }
                let sx = tx * size.w;
                let sy = ty * size.h;
                let tile = crop_dynamic(origin, sx, sy, size.w, size.h);
                proof {
                    assert(rgba_pixels(tile) =~= crop_view(*origin, sx, sy, size.w, size.h));
                }
                let ghost pos_before = pos@;
                let p = self.place_tile(&tile, size.w, size.h);
                pos.push(Pos { x: p.0, y: p.1 });
                proof {
                    let k1 = (k + 1) as nat;
                    lemma_place_run_len(c0, w, h, width, k);
                    lemma_place_run_len(c0, w, h, width, k1);
                    let prev = place_run(c0, w, h, width, k);
                    assert(place_run(c0, w, h, width, k1).1 == prev.1.push(place_step(prev.0, w, h, width).1));
                    assert forall|i: int| 0 <= i < pos@.len() implies (#[trigger] pos@[i].x as int, pos@[i].y as int)
                        == place_run(c0, w, h, width, k1).1[i] by {
                        if i < k {
                            assert(pos@[i] == pos_before[i]);
                        }
                    }
                    assert(k as int % cols as int == tx as int && k as int / cols as int == ty as int) by {
                        vstd::arithmetic::div_mod::lemma_fundamental_div_mod_converse(k as int, cols as int, ty as int, tx as int);
                    }
                    assert(self.tiles@ =~= old_tiles + image_tiles(*origin, size, dims, c0, width, k1));
                }
                tx = tx + 1;
            }
            assert(ty * cols + cols == (ty + 1) * cols) by (nonlinear_arith);
            ty = ty + 1;
        }
        assert(rows * cols == cols * rows) by (nonlinear_arith);
        pos
    }

    /// Whether placing a `dims` image cut into `size` tiles stays within the
    /// machine's numbers (`run_fits`).
    pub fn fits(&self, size: Size, dims: (u32, u32)) -> (r: bool)
        requires
            self.wf(),
            size.w > 0,
            size.h > 0,
        ensures
            r == run_fits(self.cursor(), size.w as int, size.h as int, self.width(), tile_count(size.w, size.h, dims)),
    {
        let cols = dims.0 / size.w;
        let rows = dims.1 / size.h;
        assert((cols as int) * (rows as int) <= u64::MAX) by (nonlinear_arith)
            requires
                cols <= u32::MAX,
                rows <= u32::MAX,
        ;
        let n: u64 = cols as u64 * rows as u64;
        let ghost c0 = self.cursor();
        let ghost w = size.w as int;
        let ghost h = size.h as int;
        let ghost width = self.atlas_width as int;
        let width64 = self.atlas_width as u64;
        let w64 = size.w as u64;
        let h64 = size.h as u64;
        let mut x: u64 = self.x as u64;
        let mut y: u64 = self.y as u64;
        let mut rh: u64 = self.row_h as u64;
        let mut k: u64 = 0;
        while k < n
            invariant
                n == tile_count(size.w, size.h, dims),
                c0 == self.cursor(),
                width == self.width(),
                w == size.w as int,
                h == size.h as int,
                k <= n,
                w64 == w,
                h64 == h,
                width64 == width,
                width <= u32::MAX,
                w <= u32::MAX,
                h <= u32::MAX,
                x <= u32::MAX,
                y <= u32::MAX,
                rh <= u32::MAX,
                (x as int, y as int, rh as int) == place_run(c0, w, h, width, k as nat).0,
                run_fits(c0, w, h, width, k as nat),
            decreases n - k,
        {
            proof {
                // a step that does not fit spoils every longer run
                if run_fits(c0, w, h, width, n as nat) {
                    lemma_run_fits_step(c0, w, h, width, n as nat, k as nat);
                }
            }
            if x + w64 > u32::MAX as u64 {
                return false;
            }
            if x + w64 > width64 {
                if y + rh + h64 > u32::MAX as u64 {
                    return false;
                }
                let rows_h: u64 = y + rh + h64;
                assert(4 * (width64 as int) * (rows_h as int) <= u128::MAX) by (nonlinear_arith)
                    requires
                        width64 <= u32::MAX,
                        rows_h <= u32::MAX,
                ;
                if 4 * (width64 as u128) * (rows_h as u128) > usize::MAX as u128 {
                    return false;
                }
                y = rows_h - h64;
                rh = h64;
                x = w64;
            } else {
                x = x + w64;
            }
            k = k + 1;
        }
        true
    }

    /// Places the tiles of the `dims` image `origin`, cut into `size` tiles,
    /// and records them under `name`; nothing changes if an image of that
    /// name was placed before.
    pub fn add_image(&mut self, name: String, size: Size, dims: (u32, u32), origin: &DynamicImage) -> (r: Result<(), AtlasError>)
        requires
            old(self).wf(),
            size.w > 0,
            size.h > 0,
            4 * (size.w as int) <= usize::MAX,
            4 * (size.w as int) * (size.h as int) <= usize::MAX,
            run_fits(old(self).cursor(), size.w as int, size.h as int, old(self).width(), tile_count(size.w, size.h, dims)),
        ensures
            final(self).wf(),
            final(self).width() == old(self).width(),
            r is Err <==> has_key(old(self).entries(), name@),
            r matches Err(e) ==> e == AtlasError::DuplicateKey(name),
            r is Err ==> {
                &&& final(self).cursor() == old(self).cursor()
                &&& final(self).entries() == old(self).entries()
                &&& final(self).tiles() == old(self).tiles()
                &&& final(self).image() == old(self).image()
                &&& final(self).heights_ordered() == old(self).heights_ordered()
            },
            r is Ok ==> final(self).cursor() == place_run(old(self).cursor(), size.w as int, size.h as int, old(self).width(), tile_count(size.w, size.h, dims)).0,
            r is Ok ==> final(self).entries() == old(self).entries().insert(insert_index(old(self).entries(), name@), final(self).entries()[insert_index(old(self).entries(), name@)]),
            r is Ok ==> final(self).entries()[insert_index(old(self).entries(), name@)].0 == name,
            r is Ok ==> final(self).entries()[insert_index(old(self).entries(), name@)].1.size == size,
            r is Ok ==> positions_are(final(self).entries()[insert_index(old(self).entries(), name@)].1.pos@, place_run(old(self).cursor(), size.w as int, size.h as int, old(self).width(), tile_count(size.w, size.h, dims)).1),
            r is Ok ==> final(self).tiles() == old(self).tiles() + image_tiles(*origin, size, dims, old(self).cursor(), old(self).width(), tile_count(size.w, size.h, dims)),
            r is Ok ==> final(self).heights_ordered() == (old(self).heights_ordered() && run_keeps_order(old(self).cursor(), size.w as int, size.h as int, old(self).width(), tile_count(size.w, size.h, dims))),
            r is Ok <==> add_step(old(self).state(), old(self).width(), name@, size, dims, *origin) is Some,
            r is Ok ==> add_step(old(self).state(), old(self).width(), name@, size, dims, *origin) == Some(final(self).state()),
    {
        proof {
            lemma_entry_views_keys(self.entries@, name@);
        }
        let mut i: usize = 0;
        while i < self.entries.len()
            invariant
                *self == *old(self),
                old(self).wf(),
                i <= self.entries@.len(),
                forall|j: int| 0 <= j < i ==> #[trigger] self.entries@[j].0@ != name@,
            decreases self.entries@.len() - i,
        {
            if self.entries[i].0 == name {
                proof {
                    lemma_entry_views_keys(self.entries@, name@);
                }
                return Err(AtlasError::DuplicateKey(name));
            }
            i = i + 1;
        }
        let ghost c0 = self.cursor();
        let pos = self.place_image(size, dims, origin);
        proof {
            lemma_place_run_len(c0, size.w as int, size.h as int, self.width(), tile_count(size.w, size.h, dims));
        }
        let ghost before = self.entries@;
        let added = insert_entry(&mut self.entries, name, AtlasEntry { size, pos });
        proof {
            crate::entries::lemma_insert_index(before, name@);
            let k = insert_index(before, name@);
            assert(self.entries@[k] == (name, AtlasEntry { size, pos }));
            assert(self.entries@ == before.insert(k, self.entries@[k]));
            let run = place_run(c0, size.w as int, size.h as int, self.width(), tile_count(size.w, size.h, dims));
            assert(pos@.map_values(|p: Pos| (p.x as int, p.y as int)) =~= run.1);
            assert(entry_views(self.entries@) =~= entry_views(before).insert(k, (name@, size, run.1)));
        }
        Ok(())
    }

    /// Ends the packing: the atlas of the entries recorded, `width()` wide and
    /// as high as the rows placed, and its image.
    pub fn finish(self) -> (r: (Atlas, RgbaRaster))
        requires
            self.wf(),
        ensures
            r.0.entries@ == self.entries(),
            keys_sorted(r.0.entries@),
            r.0.size.w == self.width(),
            r.0.size.h == self.cursor().1 + self.cursor().2,
            r.1 == self.image(),
            rgba_dims(r.1) == (r.0.size.w, r.0.size.h),
            rgba_pixels(r.1).dom() == grid(r.0.size.w as int, r.0.size.h as int),
            shows_last(rgba_pixels(r.1), self.tiles(), self.width()),
            self.heights_ordered() ==> shows_tiles(rgba_pixels(r.1), self.tiles(), self.width()),
            entry_views(r.0.entries@) == self.state().entries,
            rgba_pixels(r.1) == atlas_pixels(self.state(), self.width()),
    {
        proof {
            assert(rgba_pixels(self.image) =~= atlas_pixels(self.state(), self.width()));
        }
        let (w, h) = rgba_dimensions(&self.image);
        (Atlas { entries: self.entries, size: Size { w, h } }, self.image)
    }
}

/// The first state of the packing of `plan`: the cursor at the top left,
/// in a first row as high as the tiles of the plan's first image.
pub open spec fn start_state(plan: Seq<PlanView>) -> PackState {
    PackState { cursor: (0, 0, plan[0].2.h as int), tiles: Seq::empty(), entries: Seq::empty() }
}

/// What building an atlas comes to: the packing, or the first error.
pub enum PackOutcome {
    Packed(PackState),
    GridMismatch(Size, Seq<char>),
    Duplicate(Seq<char>),
}

/// Packing the planned image `item` onto `s`, where `source` gives, for a
/// path, the dimensions read from the file's header and its decoded image:
/// the image must divide into whole tiles (`check_tile_grid`), and is then
/// added (`AtlasPacker::add_image`).
pub open spec fn pack_item(
    s: PackState,
    width: int,
    item: PlanView,
    source: spec_fn(Seq<char>) -> ((u32, u32), DynamicImage),
) -> PackOutcome {
    let dims = source(item.1).0;
    if dims.0 % item.2.w != 0 || dims.1 % item.2.h != 0 {
        PackOutcome::GridMismatch(item.2, item.1)
    } else {
        match add_step(s, width, item.0, item.2, dims, source(item.1).1) {
            Some(t) => PackOutcome::Packed(t),
            None => PackOutcome::Duplicate(item.0),
        }
    }
}

/// Packing `items` in turn from `s`, up to the first error.
pub open spec fn pack_items(
    s: PackState,
    width: int,
    items: Seq<PlanView>,
    source: spec_fn(Seq<char>) -> ((u32, u32), DynamicImage),
) -> PackOutcome
    decreases items.len(),
{
    if items.len() == 0 {
        PackOutcome::Packed(s)
    } else {
        match pack_items(s, width, items.drop_last(), source) {
            PackOutcome::Packed(t) => pack_item(t, width, items.last(), source),
            other => other,
        }
    }
}

/// The atlas of `plan`, `width` pixels wide, from the files that `source`
/// reads: the packing that `AtlasPacker::for_plan`, then `check_tile_grid`
/// and `AtlasPacker::add_image` for each planned image in turn, come to.
/// `AtlasPacker::finish` hands back its entries (`entry_views`) and its
/// pixels (`atlas_pixels`).
pub open spec fn pack_plan(
    width: int,
    plan: Seq<PlanView>,
    source: spec_fn(Seq<char>) -> ((u32, u32), DynamicImage),
) -> PackOutcome {
    pack_items(start_state(plan), width, plan, source)
}

/// The atlas of a folder does not depend on the order in which the folder
/// lists its entries: listings that are a permutation of each other, read
/// from the same files, give the same packing, hence the same entries, size
/// and pixels, or the same error.
pub proof fn lemma_atlas_ignores_listing_order(
    e1: Seq<FolderEntry>,
    e2: Seq<FolderEntry>,
    specs: Seq<TileSpec>,
    default: Size,
    width: int,
    source: spec_fn(Seq<char>) -> ((u32, u32), DynamicImage),
)
    requires
        e1.to_multiset() == e2.to_multiset(),
    ensures
        pack_plan(width, sort_seq(planned_images(e1, specs, default), plan_order()), source) == pack_plan(
            width,
            sort_seq(planned_images(e2, specs, default), plan_order()),
            source,
        ),
{
    lemma_plan_ignores_listing_order(e1, e2, specs, default);
}

/// Checks that a `dims` image divides into whole `size` tiles; the error
/// names the size and the image's path.
pub fn check_tile_grid(size: Size, dims: (u32, u32), path: &str) -> (r: Result<(), AtlasError>)
    requires
        size.w > 0,
        size.h > 0,
    ensures
        r is Ok <==> dims.0 % size.w == 0 && dims.1 % size.h == 0,
        r matches Err(e) ==> (e matches AtlasError::TileGridMismatch { size: s, path: p } && s == size && p@ == path@),
{
    if dims.0 % size.w != 0 || dims.1 % size.h != 0 {
        return Err(AtlasError::TileGridMismatch { size, path: path.to_owned() });
    }
    Ok(())
}

/// Tile `k` of a `dims` image cut into `size` tiles holds the pixels of the
/// source image at column `k % cols` and row `k / cols`, when the decoded
/// image has the dimensions the tiles were cut for.
pub proof fn lemma_tile_holds_source(origin: DynamicImage, size: Size, dims: (u32, u32), c: Cursor, width: int, k: int, p: (int, int))
    requires
        dynamic_dims(origin) == dims,
        size.w > 0,
        size.h > 0,
        0 <= k < tile_count(size.w, size.h, dims),
        in_grid(p, size.w as int, size.h as int),
    ensures
        ({
            let cols = (dims.0 / size.w) as int;
            let t = image_tiles(origin, size, dims, c, width, tile_count(size.w, size.h, dims))[k];
            &&& t.pixels.contains_key(p)
            &&& t.pixels[p] == dynamic_pixels(origin)[((k % cols) * size.w + p.0, (k / cols) * size.h + p.1)]
        }),
{
    let cols = (dims.0 / size.w) as int;
    let rows = (dims.1 / size.h) as int;
    let n = tile_count(size.w, size.h, dims);
    assert(cols > 0 && rows > 0) by (nonlinear_arith)
        requires
            0 <= k < n,
            n == cols * rows,
            cols >= 0,
            rows >= 0,
    ;
    let col = k % cols;
    let row = k / cols;
    assert(0 <= col < cols && 0 <= row < rows) by (nonlinear_arith)
        requires
            0 <= k < cols * rows,
            cols > 0,
            col == k % cols,
            row == k / cols,
    {
        vstd::arithmetic::div_mod::lemma_div_pos_is_pos(k, cols);
        vstd::arithmetic::div_mod::lemma_div_by_multiple_is_strongly_ordered(k, cols * rows, rows, cols);
    }
    assert(col * size.w + size.w <= dims.0 && row * size.h + size.h <= dims.1) by (nonlinear_arith)
        requires
            0 <= col < cols,
            0 <= row < rows,
            cols == dims.0 / size.w,
            rows == dims.1 / size.h,
            size.w > 0,
            size.h > 0,
    {
        assert(cols * size.w <= dims.0);
        assert(rows * size.h <= dims.1);
        assert((col + 1) * size.w <= cols * size.w);
        assert((row + 1) * size.h <= rows * size.h);
    }
    let sx = (col * size.w) as u32;
    let sy = (row * size.h) as u32;
    let r = crop_rect(dims.0, dims.1, sx, sy, size.w, size.h);
    assert(r == (sx, sy, size.w, size.h));
}

/// What the atlas shows of an image: when the atlas pixels `img` show the
/// tiles `tiles` (as `AtlasPacker::finish` gives for tiles placed tallest
/// first), the tiles from `start` on are those that `add_image` placed for
/// `origin` from cursor `c`, and those tiles are no taller than the row in
/// use at `c` (as holds tallest first), then pixel `p` of the image's tile
/// `k` appears at `p` from the tile's position, holding the source pixel at
/// column `k % cols` and row `k / cols` of the image, wherever it lies within
/// the atlas width.
pub proof fn lemma_atlas_shows_source(
    img: Map<(int, int), (u8, u8, u8, u8)>,
    tiles: Seq<PlacedTile>,
    width: int,
    start: int,
    origin: DynamicImage,
    size: Size,
    dims: (u32, u32),
    c: Cursor,
    k: int,
    p: (int, int),
)
    requires
        shows_tiles(img, tiles, width),
        0 <= start,
        start + tile_count(size.w, size.h, dims) <= tiles.len(),
        tiles.subrange(start, start + tile_count(size.w, size.h, dims)) == image_tiles(origin, size, dims, c, width, tile_count(size.w, size.h, dims)),
        dynamic_dims(origin) == dims,
        size.w > 0,
        size.h > 0,
        0 <= k < tile_count(size.w, size.h, dims),
        in_grid(p, size.w as int, size.h as int),
        size.h <= c.2,
        place_run(c, size.w as int, size.h as int, width, tile_count(size.w, size.h, dims)).1[k].0 + p.0 < width,
    ensures
        ({
            let cols = (dims.0 / size.w) as int;
            let pos = place_run(c, size.w as int, size.h as int, width, tile_count(size.w, size.h, dims)).1[k];
            img[(pos.0 + p.0, pos.1 + p.1)] == dynamic_pixels(origin)[((k % cols) * size.w + p.0, (k / cols) * size.h + p.1)]
        }),
{
    let n = tile_count(size.w, size.h, dims);
    lemma_tile_holds_source(origin, size, dims, c, width, k, p);
    assert(tiles[start + k] == tiles.subrange(start, start + n)[k]);
    // the tile's row is at least as high as the tile
    lemma_place_run_prefix(c, size.w as int, size.h as int, width, n, k as nat);
    lemma_tallest_first_keeps_rows(c, size.w as int, size.h as int, width, (k + 1) as nat);
    assert(visible(tiles[start + k], p, width));
}

/// Tiles no wider than the atlas are placed within its width.
pub proof fn lemma_step_within_width(c: Cursor, w: int, h: int, width: int)
    requires
        0 <= w <= width,
        0 <= c.0,
    ensures
        0 <= place_step(c, w, h, width).1.0,
        place_step(c, w, h, width).1.0 + w <= width,
{
}

/// Every tile of a run of tiles no wider than the atlas lies within its
/// width.
pub proof fn lemma_run_within_width(c: Cursor, w: int, h: int, width: int, n: nat)
    requires
        0 <= w <= width,
        0 <= c.0,
    ensures
        0 <= place_run(c, w, h, width, n).0.0,
        forall|k: int| 0 <= k < n ==> 0 <= #[trigger] place_run(c, w, h, width, n).1[k].0
            && place_run(c, w, h, width, n).1[k].0 + w <= width,
    decreases n,
{
    if n > 0 {
        let m = (n - 1) as nat;
        lemma_run_within_width(c, w, h, width, m);
        lemma_place_run_len(c, w, h, width, m);
        let prev = place_run(c, w, h, width, m);
        lemma_step_within_width(prev.0, w, h, width);
        assert forall|k: int| 0 <= k < n implies 0 <= #[trigger] place_run(c, w, h, width, n).1[k].0
            && place_run(c, w, h, width, n).1[k].0 + w <= width by {
            if k < m {
                assert(place_run(c, w, h, width, n).1[k] == prev.1[k]);
            }
        }
    }
}

/// When a run's tiles are no taller than the current row, every row keeps
/// them, and the row in use at its end is at least as high: so images that
/// come tallest first never overflow their rows.
pub proof fn lemma_tallest_first_keeps_rows(c: Cursor, w: int, h: int, width: int, n: nat)
    requires
        h <= c.2,
    ensures
        run_keeps_order(c, w, h, width, n),
        place_run(c, w, h, width, n).0.2 >= h,
    decreases n,
{
    if n > 0 {
        lemma_tallest_first_keeps_rows(c, w, h, width, (n - 1) as nat);
    }
}

} // verus!
