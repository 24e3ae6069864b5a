use image::{DynamicImage, Rgba, RgbaImage};
use tile_packer::{
    check_tile_grid, plan_atlas, Atlas, AtlasError, AtlasPacker, FolderEntry, NameIdentifier, PlannedImage, Pos,
    RgbaRaster, Settings, Size, TileSpec,
};

fn file(name: &str) -> FolderEntry {
    FolderEntry { path: format!("assets/{name}"), file_name: name.to_string(), is_dir: false }
}

fn dir(name: &str) -> FolderEntry {
    FolderEntry { path: format!("assets/{name}"), file_name: name.to_string(), is_dir: true }
}

/// A source image whose pixel (x, y) is (x, y, id, 255).
fn source(w: u32, h: u32, id: u8) -> DynamicImage {
    DynamicImage::ImageRgba8(RgbaImage::from_fn(w, h, |x, y| Rgba([x as u8, y as u8, id, 255])))
}

fn settings(default: (u32, u32), width: u32, specs: Vec<TileSpec>) -> Settings {
    Settings { default_size: Size { w: default.0, h: default.1 }, atlas_width: width, specs }
}

/// Packs the planned images, each decoded from `images` by its name.
fn pack(
    width: u32,
    plan: &Vec<PlannedImage>,
    images: &[(&str, DynamicImage)],
) -> Result<(Atlas, RgbaRaster), AtlasError> {
    let mut packer = AtlasPacker::for_plan(width, plan);
    for item in plan {
        let origin = &images.iter().find(|(n, _)| *n == item.name).unwrap().1;
        let dims = (origin.width(), origin.height());
        check_tile_grid(item.size, dims, &item.path)?;
        assert!(packer.fits(item.size, dims));
        packer.add_image(item.name.clone(), item.size, dims, origin)?;
    }
    Ok(packer.finish())
}

fn keys(atlas: &Atlas) -> Vec<&str> {
    atlas.entries.iter().map(|(k, _)| k.as_str()).collect()
}

fn entry<'a>(atlas: &'a Atlas, key: &str) -> &'a tile_packer::AtlasEntry {
    &atlas.entries.iter().find(|(k, _)| k == key).unwrap().1
}

fn readme_images() -> Vec<(&'static str, DynamicImage)> {
    vec![("hero", source(16, 8, 1)), ("tree", source(8, 16, 2)), ("sword", source(8, 8, 3))]
}

#[test]
fn readme_example_packs_hero_tree_and_sword() {
    let s = settings((8, 8), 16, vec![TileSpec::new_stem(8, 16, "tree".to_string())]);
    let entries = vec![file("hero.png"), file("sword.png"), file("tree.png")];
    let plan = plan_atlas(&s, &entries).unwrap();
    let order: Vec<&str> = plan.iter().map(|p| p.name.as_str()).collect();
    assert_eq!(order, vec!["tree", "hero", "sword"]);
    let (atlas, image) = pack(16, &plan, &readme_images()).unwrap();
    assert_eq!(atlas.size, Size { w: 16, h: 24 });
    assert_eq!(image.0.dimensions(), (16, 24));
    assert_eq!(keys(&atlas), vec!["hero", "sword", "tree"]);
    assert_eq!(entry(&atlas, "tree").size, Size { w: 8, h: 16 });
    assert_eq!(entry(&atlas, "tree").pos, vec![Pos { x: 0, y: 0 }]);
    assert_eq!(entry(&atlas, "hero").size, Size { w: 8, h: 8 });
    assert_eq!(entry(&atlas, "hero").pos, vec![Pos { x: 8, y: 0 }, Pos { x: 0, y: 16 }]);
    assert_eq!(entry(&atlas, "sword").pos, vec![Pos { x: 8, y: 16 }]);
}

#[test]
fn tiles_carry_their_source_pixels() {
    let s = settings((8, 8), 16, vec![TileSpec::new_stem(8, 16, "tree".to_string())]);
    let entries = vec![file("hero.png"), file("sword.png"), file("tree.png")];
    let plan = plan_atlas(&s, &entries).unwrap();
    let (_, image) = pack(16, &plan, &readme_images()).unwrap();
    // the second tile of hero (source x 8..16) sits at (0, 16)
    for y in 0..8 {
        for x in 0..8 {
            assert_eq!(*image.0.get_pixel(x, 16 + y), Rgba([(8 + x) as u8, y as u8, 1, 255]));
            assert_eq!(*image.0.get_pixel(8 + x, y), Rgba([x as u8, y as u8, 1, 255]));
            assert_eq!(*image.0.get_pixel(8 + x, 16 + y), Rgba([x as u8, y as u8, 3, 255]));
        }
    }
    for y in 0..16 {
        for x in 0..8 {
            assert_eq!(*image.0.get_pixel(x, y), Rgba([x as u8, y as u8, 2, 255]));
        }
    }
    // the free space below hero's first tile stays transparent
    assert_eq!(*image.0.get_pixel(12, 10), Rgba([0, 0, 0, 0]));
}

#[test]
fn first_matching_spec_wins_over_later_ones_and_default() {
    let s = settings(
        (4, 4),
        64,
        vec![
            TileSpec::new(2, 2, NameIdentifier::FileName("a.png".to_string())),
            TileSpec::new_stem(8, 8, "a".to_string()),
            TileSpec::new_regex(16, 16, "^b".to_string()),
        ],
    );
    let entries = vec![file("a.png"), file("a.jpg"), file("b.webp"), file("c.jpeg")];
    let plan = plan_atlas(&s, &entries).unwrap();
    let got: Vec<(&str, &str, Size)> = plan.iter().map(|p| (p.name.as_str(), p.path.as_str(), p.size)).collect();
    assert_eq!(
        got,
        vec![
            ("b", "assets/b.webp", Size { w: 16, h: 16 }),
            ("a", "assets/a.jpg", Size { w: 8, h: 8 }),
            ("c", "assets/c.jpeg", Size { w: 4, h: 4 }),
            ("a", "assets/a.png", Size { w: 2, h: 2 }),
        ]
    );
}

#[test]
fn regex_matches_anywhere_in_the_file_name() {
    let s = settings((4, 4), 64, vec![TileSpec::new_regex(32, 32, "big_item_.*\\.png".to_string())]);
    let entries = vec![file("big_item_sword.png"), file("big_item_sword.jpg"), file("my_big_item_x.png")];
    let plan = plan_atlas(&s, &entries).unwrap();
    let got: Vec<(&str, Size)> = plan.iter().map(|p| (p.path.as_str(), p.size)).collect();
    assert_eq!(
        got,
        vec![
            ("assets/big_item_sword.png", Size { w: 32, h: 32 }),
            ("assets/my_big_item_x.png", Size { w: 32, h: 32 }),
            ("assets/big_item_sword.jpg", Size { w: 4, h: 4 }),
        ]
    );
}

#[test]
fn equal_heights_go_by_name() {
    let s = settings((4, 4), 64, vec![]);
    let entries = vec![file("z.png"), file("m.png"), file("a.png")];
    let plan = plan_atlas(&s, &entries).unwrap();
    let order: Vec<&str> = plan.iter().map(|p| p.name.as_str()).collect();
    assert_eq!(order, vec!["a", "m", "z"]);
}

#[test]
fn equal_names_go_by_path() {
    let s = settings((4, 4), 64, vec![]);
    let entries = vec![file("a.png"), file("a.jpg")];
    let plan = plan_atlas(&s, &entries).unwrap();
    let paths: Vec<&str> = plan.iter().map(|p| p.path.as_str()).collect();
    assert_eq!(paths, vec!["assets/a.jpg", "assets/a.png"]);
}

#[test]
fn listing_order_does_not_change_the_atlas() {
    let s = settings((8, 8), 16, vec![TileSpec::new_stem(8, 16, "tree".to_string())]);
    let listings = vec![
        vec![file("hero.png"), file("sword.png"), file("tree.png")],
        vec![file("sword.png"), file("hero.png"), file("tree.png")],
        vec![file("tree.png"), file("sword.png"), file("notes.txt"), file("hero.png")],
    ];
    let first = plan_atlas(&s, &listings[0]).unwrap();
    let (atlas, image) = pack(16, &first, &readme_images()).unwrap();
    for entries in &listings[1..] {
        let plan = plan_atlas(&s, entries).unwrap();
        let got: Vec<(&str, &str, Size)> = plan.iter().map(|p| (p.name.as_str(), p.path.as_str(), p.size)).collect();
        let want: Vec<(&str, &str, Size)> = first.iter().map(|p| (p.name.as_str(), p.path.as_str(), p.size)).collect();
        assert_eq!(got, want);
        let (other, other_image) = pack(16, &plan, &readme_images()).unwrap();
        assert!(other == atlas);
        assert_eq!(other_image.0, image.0);
    }
}

#[test]
fn readme_example_with_sword_listed_before_hero() {
    let s = settings((8, 8), 16, vec![TileSpec::new_stem(8, 16, "tree".to_string())]);
    let entries = vec![file("sword.png"), file("tree.png"), file("hero.png")];
    let plan = plan_atlas(&s, &entries).unwrap();
    let (atlas, image) = pack(16, &plan, &readme_images()).unwrap();
    assert_eq!(atlas.size, Size { w: 16, h: 24 });
    assert_eq!(image.0.dimensions(), (16, 24));
    assert_eq!(entry(&atlas, "tree").pos, vec![Pos { x: 0, y: 0 }]);
    assert_eq!(entry(&atlas, "hero").pos, vec![Pos { x: 8, y: 0 }, Pos { x: 0, y: 16 }]);
    assert_eq!(entry(&atlas, "sword").pos, vec![Pos { x: 8, y: 16 }]);
}

#[test]
fn packer_for_plan_starts_with_the_tallest_row() {
    let s = settings((8, 8), 16, vec![TileSpec::new_stem(8, 16, "tree".to_string())]);
    let plan = plan_atlas(&s, &vec![file("hero.png"), file("tree.png")]).unwrap();
    let (atlas, image) = AtlasPacker::for_plan(16, &plan).finish();
    assert_eq!(atlas.size, Size { w: 16, h: 16 });
    assert_eq!(image.0.dimensions(), (16, 16));
    assert!(atlas.entries.is_empty());
}

#[test]
fn tile_taller_than_its_row_is_cut_at_the_row() {
    // fed out of height order: the tall tile only shows as far down as the
    // atlas reached when it was placed; the next row covers the rest
    let mut packer = AtlasPacker::new(4, 2);
    let tall = source(2, 4, 1);
    let low = source(4, 2, 2);
    packer.add_image("tall".to_string(), Size { w: 2, h: 4 }, (2, 4), &tall).unwrap();
    packer.add_image("low".to_string(), Size { w: 4, h: 2 }, (4, 2), &low).unwrap();
    let (atlas, image) = packer.finish();
    assert_eq!(atlas.size, Size { w: 4, h: 4 });
    assert_eq!(entry(&atlas, "tall").pos, vec![Pos { x: 0, y: 0 }]);
    assert_eq!(entry(&atlas, "low").pos, vec![Pos { x: 0, y: 2 }]);
    assert_eq!(*image.0.get_pixel(1, 1), Rgba([1, 1, 1, 255]));
    assert_eq!(*image.0.get_pixel(0, 2), Rgba([0, 0, 2, 255]));
    assert_eq!(*image.0.get_pixel(1, 3), Rgba([1, 1, 2, 255]));
    assert_eq!(*image.0.get_pixel(3, 0), Rgba([0, 0, 0, 0]));
}

#[test]
fn spec_wider_than_atlas_is_rejected_with_every_such_spec() {
    let s = settings(
        (4, 4),
        16,
        vec![TileSpec::new_stem(32, 4, "a".to_string()), TileSpec::new_stem(8, 4, "b".to_string()), TileSpec::new_stem(17, 1, "c".to_string())],
    );
    match plan_atlas(&s, &vec![file("a.png")]) {
        Err(AtlasError::TileWiderThanAtlas(found)) => {
            let widths: Vec<u32> = found.iter().map(|t| t.size().w).collect();
            assert_eq!(widths, vec![32, 17]);
        }
        other => panic!("unexpected {other:?}"),
    }
}

#[test]
fn folder_without_supported_images_is_empty() {
    let s = settings((4, 4), 16, vec![]);
    let entries = vec![dir("sub.png"), file("notes.txt"), file("README"), file(".png"), file("UPPER.PNG")];
    assert!(matches!(plan_atlas(&s, &entries), Err(AtlasError::EmptyFolder)));
}

#[test]
fn first_invalid_regex_is_reported() {
    let s = settings(
        (4, 4),
        16,
        vec![TileSpec::new_regex(4, 4, "ok".to_string()), TileSpec::new_regex(4, 4, "bad(".to_string()), TileSpec::new_regex(4, 4, "worse[".to_string())],
    );
    match plan_atlas(&s, &vec![file("a.png")]) {
        Err(AtlasError::InvalidRegex(p, _)) => assert_eq!(p, "bad("),
        other => panic!("unexpected {other:?}"),
    }
}

#[test]
fn empty_folder_is_reported_before_invalid_regex() {
    let s = settings((4, 4), 16, vec![TileSpec::new_regex(4, 4, "bad(".to_string())]);
    assert!(matches!(plan_atlas(&s, &vec![]), Err(AtlasError::EmptyFolder)));
}

#[test]
fn image_not_a_multiple_of_its_tile_is_rejected() {
    match check_tile_grid(Size { w: 8, h: 8 }, (12, 8), "assets/odd.png") {
        Err(AtlasError::TileGridMismatch { size, path }) => {
            assert_eq!(size, Size { w: 8, h: 8 });
            assert_eq!(path, "assets/odd.png");
        }
        other => panic!("unexpected {other:?}"),
    }
    assert!(check_tile_grid(Size { w: 8, h: 8 }, (16, 9), "x").is_err());
    assert!(check_tile_grid(Size { w: 8, h: 8 }, (16, 24), "x").is_ok());
    assert!(check_tile_grid(Size { w: 8, h: 8 }, (0, 0), "x").is_ok());
}

#[test]
fn duplicate_key_is_rejected() {
    let s = settings((8, 8), 64, vec![]);
    let entries = vec![file("hero.png"), file("hero.jpg")];
    let plan = plan_atlas(&s, &entries).unwrap();
    let images = vec![("hero", source(8, 8, 1))];
    match pack(64, &plan, &images) {
        Err(AtlasError::DuplicateKey(k)) => assert_eq!(k, "hero"),
        other => panic!("unexpected {other:?}"),
    }
}

#[test]
fn entries_are_sorted_by_name() {
    let s = settings((4, 4), 64, vec![]);
    let entries = vec![file("b.png"), file("c.png"), file("a.png"), file("ab.png")];
    let plan = plan_atlas(&s, &entries).unwrap();
    let images = vec![("a", source(4, 4, 1)), ("b", source(4, 4, 2)), ("c", source(4, 4, 3)), ("ab", source(4, 4, 4))];
    let (atlas, _) = pack(64, &plan, &images).unwrap();
    assert_eq!(keys(&atlas), vec!["a", "ab", "b", "c"]);
    // tiles of one height are packed by name, left to right
    assert_eq!(entry(&atlas, "a").pos, vec![Pos { x: 0, y: 0 }]);
    assert_eq!(entry(&atlas, "ab").pos, vec![Pos { x: 4, y: 0 }]);
    assert_eq!(entry(&atlas, "b").pos, vec![Pos { x: 8, y: 0 }]);
    assert_eq!(entry(&atlas, "c").pos, vec![Pos { x: 12, y: 0 }]);
    assert_eq!(atlas.size, Size { w: 64, h: 4 });
}

#[test]
fn tiles_are_cut_row_by_row() {
    let s = settings((2, 2), 4, vec![]);
    let plan = plan_atlas(&s, &vec![file("grid.png")]).unwrap();
    let images = vec![("grid", source(4, 4, 9))];
    let (atlas, image) = pack(4, &plan, &images).unwrap();
    assert_eq!(
        entry(&atlas, "grid").pos,
        vec![Pos { x: 0, y: 0 }, Pos { x: 2, y: 0 }, Pos { x: 0, y: 2 }, Pos { x: 2, y: 2 }]
    );
    assert_eq!(atlas.size, Size { w: 4, h: 4 });
    assert_eq!(*image.0.get_pixel(3, 3), Rgba([3, 3, 9, 255]));
}

#[test]
fn default_tile_wider_than_atlas_starts_a_row_per_tile() {
    let s = settings((8, 2), 4, vec![]);
    let plan = plan_atlas(&s, &vec![file("wide.png")]).unwrap();
    let images = vec![("wide", source(16, 2, 5))];
    let (atlas, image) = pack(4, &plan, &images).unwrap();
    assert_eq!(entry(&atlas, "wide").pos, vec![Pos { x: 0, y: 2 }, Pos { x: 0, y: 4 }]);
    assert_eq!(atlas.size, Size { w: 4, h: 6 });
    // the visible part of the second tile is its left edge
    assert_eq!(*image.0.get_pixel(1, 4), Rgba([9, 0, 5, 255]));
}

#[test]
fn packer_reports_overflowing_rows() {
    let packer = AtlasPacker::new(4, 1);
    assert!(packer.fits(Size { w: 4, h: 1 }, (4, 3)));
    assert!(packer.fits(Size { w: 2, h: u32::MAX - 1 }, (6, u32::MAX - 1)));
    assert!(!packer.fits(Size { w: 2, h: u32::MAX - 1 }, (10, u32::MAX - 1)));
    assert!(packer.fits(Size { w: u32::MAX, h: 1 }, (u32::MAX, 1)));
    assert!(!packer.fits(Size { w: u32::MAX, h: 1 }, (u32::MAX, 2)));
}
