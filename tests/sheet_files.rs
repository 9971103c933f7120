use sprite_atlas::spritesheet::{
    extract_from_cache, file_name, get_spritesheet_bundles, join, SheetAction, SheetBundles, SheetError,
    SpriteSheet,
};

fn sheet(name: &str, files: &[&str]) -> SpriteSheet {
    SpriteSheet { name: name.to_string(), files: files.iter().map(|s| s.to_string()).collect() }
}

#[test]
fn bundles_follow_naming() {
    let b = SheetBundles::new("out/icons.png");
    assert_eq!(b.sd.png, "out/icons.png");
    assert_eq!(b.sd.plist, "out/icons.plist");
    assert_eq!(b.hd.png, "out/icons-hd.png");
    assert_eq!(b.hd.plist, "out/icons-hd.plist");
    assert_eq!(b.uhd.png, "out/icons-uhd.png");
    assert_eq!(b.uhd.plist, "out/icons-uhd.plist");
}

#[test]
fn bundles_replace_or_add_extension() {
    assert_eq!(SheetBundles::new("a.b/icons").hd.png, "a.b/icons-hd.png");
    assert_eq!(SheetBundles::new("icons.tar.gz").sd.plist, "icons.tar.plist");
    assert_eq!(SheetBundles::new("/w/.hidden").uhd.png, "/w/.hidden-uhd.png");
}

#[test]
fn cache_name_keeps_relative_path() {
    let b = SheetBundles::new("sheets/x.png");
    assert_eq!(b.cache_name("/work"), "sheets/x.png");
}

#[test]
fn cache_name_strips_working_dir() {
    let b = SheetBundles::new("/work/dir/x.png");
    assert_eq!(b.cache_name("/work/dir"), "x.png");
    assert_eq!(b.cache_name("/work/dir/"), "x.png");
    assert_eq!(b.cache_name("/work"), "dir/x.png");
    assert_eq!(b.cache_name("/"), "work/dir/x.png");
}

#[test]
fn cache_name_outside_working_dir_is_kept() {
    let b = SheetBundles::new("/work/dir/x.png");
    assert_eq!(b.cache_name("/wor"), "/work/dir/x.png");
    assert_eq!(b.cache_name("/elsewhere"), "/work/dir/x.png");
}

#[test]
fn cache_name_skips_repeated_slashes() {
    let b = SheetBundles::new("/w//X.png");
    assert_eq!(b.cache_name("/w"), "X.png");
}

#[test]
fn join_and_file_name() {
    assert_eq!(join("/w", "a.png"), "/w/a.png");
    assert_eq!(join("/w/", "a.png"), "/w/a.png");
    assert_eq!(join("", "a.png"), "a.png");
    assert_eq!(file_name("x/y/z.plist"), "z.plist");
    assert_eq!(file_name("z.plist"), "z.plist");
}

#[test]
fn extraction_copies_entry_to_dest() {
    let e = extract_from_cache("cache/sheet-hd.png", "/w/sheet-hd.png");
    assert_eq!(e.entry, "cache/sheet-hd.png");
    assert_eq!(e.dest, "/w/sheet-hd.png");
}

#[test]
fn cache_hit_uses_sheet_name_for_destinations() {
    let s = sheet("A", &["a.png"]);
    let plan = get_spritesheet_bundles(&s, "/w", Some("old/B.png".to_string())).unwrap();
    match plan.action {
        SheetAction::Extract(v) => {
            assert_eq!(v.len(), 6);
            assert_eq!((v[0].entry.as_str(), v[0].dest.as_str()), ("old/B.png", "/w/A.png"));
            assert_eq!((v[5].entry.as_str(), v[5].dest.as_str()), ("old/B-uhd.plist", "/w/A-uhd.plist"));
        },
        SheetAction::Build(_) => panic!("a cache hit must not build"),
    }
    assert_eq!(plan.bundles.sd.png, "/w/A.png");
}

#[test]
fn cache_hit_extracts_six_files_and_builds_nothing() {
    let s = sheet("GameSheet", &["a.png"]);
    let plan = get_spritesheet_bundles(&s, "/w", Some("GameSheet.png".to_string())).unwrap();
    match plan.action {
        SheetAction::Extract(v) => {
            let got: Vec<(&str, &str)> = v.iter().map(|e| (e.entry.as_str(), e.dest.as_str())).collect();
            assert_eq!(
                got,
                vec![
                    ("GameSheet.png", "/w/GameSheet.png"),
                    ("GameSheet.plist", "/w/GameSheet.plist"),
                    ("GameSheet-hd.png", "/w/GameSheet-hd.png"),
                    ("GameSheet-hd.plist", "/w/GameSheet-hd.plist"),
                    ("GameSheet-uhd.png", "/w/GameSheet-uhd.png"),
                    ("GameSheet-uhd.plist", "/w/GameSheet-uhd.plist"),
                ]
            );
        },
        SheetAction::Build(_) => panic!("a cache hit must not build"),
    }
    assert_eq!(plan.bundles.hd.png, "/w/GameSheet-hd.png");
}

#[test]
fn cache_miss_builds_three_tiers_in_order() {
    let s = sheet("GameSheet", &["a.png", "b.png"]);
    let plan = get_spritesheet_bundles(&s, "/w", None).unwrap();
    match plan.action {
        SheetAction::Build(jobs) => {
            let got: Vec<(&str, &str, u32)> =
                jobs.iter().map(|j| (j.bundle.png.as_str(), j.bundle.plist.as_str(), j.factor)).collect();
            assert_eq!(
                got,
                vec![
                    ("/w/GameSheet.png", "/w/GameSheet.plist", 4),
                    ("/w/GameSheet-hd.png", "/w/GameSheet-hd.plist", 2),
                    ("/w/GameSheet-uhd.png", "/w/GameSheet-uhd.plist", 1),
                ]
            );
        },
        SheetAction::Extract(_) => panic!("a cache miss must build"),
    }
    assert_eq!(plan.bundles.sd.png, "/w/GameSheet.png");
}

#[test]
fn cache_miss_of_empty_sheet_is_invalid() {
    let s = sheet("Empty", &[]);
    assert_eq!(get_spritesheet_bundles(&s, "/w", None).unwrap_err(), SheetError::InvalidInput);
}

#[test]
fn cache_hit_without_file_name_fails() {
    let s = sheet("S", &["a.png"]);
    let r = get_spritesheet_bundles(&s, "/w", Some("cache/".to_string()));
    assert_eq!(r.unwrap_err(), SheetError::CacheError);
}

#[test]
fn bundles_from_reduced_image_are_the_same() {
    for base in ["out/icons", "a.b/icons.tar.gz", "/w/.hidden", "plain.png"] {
        let b = SheetBundles::new(base);
        let again = SheetBundles::new(&b.sd.png);
        assert_eq!(again.sd.png, b.sd.png);
        assert_eq!(again.sd.plist, b.sd.plist);
        assert_eq!(again.hd.png, b.hd.png);
        assert_eq!(again.hd.plist, b.hd.plist);
        assert_eq!(again.uhd.png, b.uhd.png);
        assert_eq!(again.uhd.plist, b.uhd.plist);
    }
}
