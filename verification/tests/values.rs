use std::hash::{DefaultHasher, Hash, Hasher};
use tile_packer::{
    check_healthy_settings, extract_image_paths, fingerprint_sources, order_stamps, AtlasEntry, BuildOutcome, FolderEntry, NameIdentifier,
    Pos, Settings, Size, SourceStamp, TileSpec,
};

fn entry(name: &str, is_dir: bool) -> FolderEntry {
    FolderEntry { path: format!("dir/{name}"), file_name: name.to_string(), is_dir }
}

#[test]
fn pos_and_size_from_pairs() {
    assert_eq!(Pos::from((3, 7)), Pos { x: 3, y: 7 });
    assert_eq!(Size::from((16, 32)), Size { w: 16, h: 32 });
    let e = AtlasEntry::from((Size { w: 8, h: 8 }, vec![Pos { x: 0, y: 8 }]));
    assert_eq!(e.size, Size { w: 8, h: 8 });
    assert_eq!(e.pos, vec![Pos { x: 0, y: 8 }]);
}

#[test]
fn tile_spec_constructors() {
    let stem = TileSpec::new_stem(32, 16, "hero".to_string());
    assert_eq!(stem.size(), Size { w: 32, h: 16 });
    assert_eq!(*stem.identifier(), NameIdentifier::Stem("hero".to_string()));
    let re = TileSpec::new_regex(64, 64, "^big_".to_string());
    assert_eq!(*re.identifier(), NameIdentifier::Regex("^big_".to_string()));
    let by_name = TileSpec::new(8, 8, NameIdentifier::FileName("coin.png".to_string()));
    assert_eq!(by_name.size(), Size { w: 8, h: 8 });
    assert_eq!(by_name, TileSpec::new(8, 8, NameIdentifier::FileName("coin.png".to_string())));
    assert_ne!(by_name, TileSpec::new(8, 8, NameIdentifier::Stem("coin.png".to_string())));
    assert_ne!(by_name, TileSpec::new(8, 9, NameIdentifier::FileName("coin.png".to_string())));
    assert_eq!(stem.clone(), stem);
}

#[test]
fn only_supported_image_files_are_extracted() {
    let entries = vec![
        entry("hero.png", false),
        entry("photos.jpg", true),
        entry("notes.txt", false),
        entry("tree.jpeg", false),
        entry("Makefile", false),
        entry(".png", false),
        entry(".hidden.png", false),
        entry("sword.webp", false),
        entry("coin.jpg", false),
        entry("shout.PNG", false),
        entry("archive.tar.png", false),
        entry("trailing.", false),
    ];
    let images = extract_image_paths(&entries);
    let names: Vec<&str> = images.iter().map(|e| e.file_name.as_str()).collect();
    assert_eq!(names, vec!["hero.png", "tree.jpeg", ".hidden.png", "sword.webp", "coin.jpg", "archive.tar.png"]);
    assert_eq!(images[0].path, "dir/hero.png");
}

#[test]
fn healthy_settings_pass() {
    let s = Settings {
        default_size: Size { w: 64, h: 64 },
        atlas_width: 32,
        specs: vec![TileSpec::new_stem(32, 4, "a".to_string())],
    };
    assert!(check_healthy_settings(&s).is_ok());
}

#[test]
fn incremental_build_outcome() {
    assert_eq!(BuildOutcome::from_fingerprints(Some(42), 42), BuildOutcome::Unchanged);
    assert_eq!(BuildOutcome::from_fingerprints(Some(41), 42), BuildOutcome::Rebuilt);
    assert_eq!(BuildOutcome::from_fingerprints(None, 42), BuildOutcome::Rebuilt);
}

#[test]
fn values_compare_field_by_field() {
    let a = AtlasEntry { size: Size { w: 8, h: 8 }, pos: vec![Pos { x: 0, y: 0 }, Pos { x: 8, y: 0 }] };
    let b = AtlasEntry { size: Size { w: 8, h: 8 }, pos: vec![Pos { x: 0, y: 0 }, Pos { x: 8, y: 0 }] };
    let c = AtlasEntry { size: Size { w: 8, h: 8 }, pos: vec![Pos { x: 0, y: 0 }] };
    assert!(a == b);
    assert!(a != c);
    let atlas = |entries: Vec<(String, AtlasEntry)>| tile_packer::Atlas { entries, size: Size { w: 16, h: 8 } };
    let x = atlas(vec![("hero".to_string(), a)]);
    let y = atlas(vec![("hero".to_string(), b)]);
    let z = atlas(vec![("sword".to_string(), c)]);
    assert!(x == y);
    assert!(x != z);
    let s1 = Settings { default_size: Size { w: 4, h: 4 }, atlas_width: 16, specs: vec![TileSpec::new_stem(4, 4, "a".to_string())] };
    let s2 = Settings { default_size: Size { w: 4, h: 4 }, atlas_width: 16, specs: vec![TileSpec::new_stem(4, 4, "a".to_string())] };
    let s3 = Settings { default_size: Size { w: 4, h: 4 }, atlas_width: 16, specs: vec![] };
    assert!(s1 == s2);
    assert!(s1 != s3);
}

fn stamp(path: &str, mtime_secs: u64, len: u64) -> SourceStamp {
    SourceStamp { path: path.to_string(), mtime_secs, len }
}

fn stamp_values(stamps: &[SourceStamp]) -> Vec<(String, u64, u64)> {
    stamps.iter().map(|s| (s.path.clone(), s.mtime_secs, s.len)).collect()
}

#[test]
fn stamps_are_ordered_by_path() {
    let ordered = order_stamps(vec![
        stamp("assets/sword.png", 3, 30),
        stamp("assets/hero.png", 1, 10),
        stamp("assets/tree.png", 2, 20),
        stamp("assets/hero.jpg", 4, 40),
    ]);
    assert_eq!(
        stamp_values(&ordered),
        vec![
            ("assets/hero.jpg".to_string(), 4, 40),
            ("assets/hero.png".to_string(), 1, 10),
            ("assets/sword.png".to_string(), 3, 30),
            ("assets/tree.png".to_string(), 2, 20),
        ]
    );
}

#[test]
fn stamps_of_one_path_go_by_time_then_length() {
    let ordered = order_stamps(vec![stamp("a", 5, 1), stamp("a", 2, 9), stamp("a", 2, 3), stamp("", 7, 7)]);
    assert_eq!(
        stamp_values(&ordered),
        vec![("".to_string(), 7, 7), ("a".to_string(), 2, 3), ("a".to_string(), 2, 9), ("a".to_string(), 5, 1)]
    );
}

#[test]
fn stamp_order_ignores_the_order_they_were_taken_in() {
    let a = order_stamps(vec![stamp("b", 1, 1), stamp("a", 1, 1), stamp("c", 1, 1)]);
    let b = order_stamps(vec![stamp("c", 1, 1), stamp("b", 1, 1), stamp("a", 1, 1)]);
    assert_eq!(stamp_values(&a), stamp_values(&b));
    assert!(order_stamps(vec![]).is_empty());
}

#[derive(Hash)]
struct Fingerprint {
    path: String,
    mtime_secs: u64,
    size: u64,
}

#[test]
fn fingerprint_hashes_the_stamps_in_path_order() {
    let stamps = vec![stamp("b.png", 2, 20), stamp("a.png", 1, 10)];
    let expected = vec![
        Fingerprint { path: "a.png".to_string(), mtime_secs: 1, size: 10 },
        Fingerprint { path: "b.png".to_string(), mtime_secs: 2, size: 20 },
    ];
    let mut hasher = DefaultHasher::new();
    expected.hash(&mut hasher);
    assert_eq!(fingerprint_sources(stamps), hasher.finish());
}

#[test]
fn fingerprint_ignores_order_and_sees_changes() {
    let a = fingerprint_sources(vec![stamp("b.png", 2, 20), stamp("a.png", 1, 10)]);
    let b = fingerprint_sources(vec![stamp("a.png", 1, 10), stamp("b.png", 2, 20)]);
    let touched = fingerprint_sources(vec![stamp("a.png", 3, 10), stamp("b.png", 2, 20)]);
    assert_eq!(a, b);
    assert_ne!(a, touched);
}
