use sprite_atlas::atlas::{
    atlas_extent, build_manifest, build_tier, frame_key, frame_record, max_atlas_width, pack_sprites,
    scaled_size, BuildError, Placement,
};

fn names(v: &[&str]) -> Vec<String> {
    v.iter().map(|s| s.to_string()).collect()
}

fn overlaps(a: &Placement, b: &Placement) -> bool {
    a.x < b.x + b.w && b.x < a.x + a.w && a.y < b.y + b.h && b.y < a.y + a.h
}

#[test]
fn sizing_four_equal_sprites() {
    assert_eq!(max_atlas_width(&vec![(10, 10); 4]), Ok(20));
}

#[test]
fn sizing_clamps_to_widest_sprite() {
    let sizes = vec![(100, 10), (1, 10), (1, 10), (1, 10)];
    assert_eq!(max_atlas_width(&sizes), Ok(102));
}

#[test]
fn sizing_rounds_to_nearest() {
    // sqrt(31) = 5.57 rounds to 6
    assert_eq!(max_atlas_width(&vec![(1, 31)]), Ok(6));
    // sqrt(30) = 5.48 rounds to 5
    assert_eq!(max_atlas_width(&vec![(1, 30)]), Ok(5));
    // 4 * 9 = 36
    assert_eq!(max_atlas_width(&vec![(2, 9), (2, 9)]), Ok(6));
}

#[test]
fn sizing_empty_sheet_is_invalid() {
    assert_eq!(max_atlas_width(&Vec::new()), Err(BuildError::InvalidInput));
}

#[test]
fn pack_places_every_sprite_apart() {
    let sizes = vec![(10, 10), (5, 7), (8, 3), (10, 2), (1, 1)];
    let placed = pack_sprites(&sizes, 20).unwrap();
    assert_eq!(placed.len(), sizes.len());
    for (p, s) in placed.iter().zip(sizes.iter()) {
        assert_eq!((p.w, p.h), *s);
        assert!(p.x + p.w <= 20);
    }
    for i in 0..placed.len() {
        for j in 0..placed.len() {
            if i != j {
                assert!(!overlaps(&placed[i], &placed[j]));
            }
        }
    }
    // the packer moves sprites away from the origin once it is taken
    assert!(placed.iter().skip(1).any(|p| p.x != 0 || p.y != 0));
}

#[test]
fn pack_sprite_wider_than_atlas_fails() {
    let sizes = vec![(10, 10), (21, 5)];
    assert_eq!(pack_sprites(&sizes, 20), Err(BuildError::PackError { sprite: 1 }));
}

#[test]
fn pack_sprite_as_wide_as_atlas_fits() {
    let placed = pack_sprites(&vec![(20, 4)], 20).unwrap();
    assert_eq!(placed[0], Placement { x: 0, y: 0, w: 20, h: 4 });
}

#[test]
fn pack_into_zero_width_fails() {
    assert_eq!(pack_sprites(&vec![(1, 1)], 0), Err(BuildError::PackError { sprite: 0 }));
}

#[test]
fn pack_positions_follow_sizes_alone() {
    let sizes = vec![(6, 4), (9, 2), (3, 8), (12, 1)];
    assert_eq!(pack_sprites(&sizes, 16).unwrap(), pack_sprites(&sizes, 16).unwrap());
}

#[test]
fn pack_empty_sprite_fails() {
    assert_eq!(pack_sprites(&vec![(3, 3), (0, 4)], 20), Err(BuildError::PackError { sprite: 1 }));
}

#[test]
fn extent_spans_placements() {
    let v = vec![Placement { x: 0, y: 0, w: 4, h: 3 }, Placement { x: 4, y: 1, w: 5, h: 6 }];
    assert_eq!(atlas_extent(&v), (9, 7));
    assert_eq!(atlas_extent(&Vec::new()), (0, 0));
}

#[test]
fn key_strips_tier_suffixes() {
    assert_eq!(frame_key("mod.id", "icon-hd"), "mod.id/icon.png");
    assert_eq!(frame_key("mod.id", "icon-uhd"), "mod.id/icon.png");
    assert_eq!(frame_key("mod.id", "icon"), "mod.id/icon.png");
    assert_eq!(frame_key("mod.id", "hd"), "mod.id/hd.png");
    assert_eq!(frame_key("mod.id", "a-hd-hd"), "mod.id/a-hd.png");
}

#[test]
fn key_stable_across_tiers() {
    let sizes_half = vec![(32, 32)];
    let sizes_reduced = vec![(16, 16)];
    let n = names(&["icon-hd"]);
    let half = build_tier("ns", &n, &sizes_half).unwrap();
    let reduced = build_tier("ns", &n, &sizes_reduced).unwrap();
    assert_eq!(half.manifest[0].key, "ns/icon.png");
    assert_eq!(reduced.manifest[0].key, half.manifest[0].key);
}

#[test]
fn record_text_fields() {
    let r = frame_record("m", "star", &Placement { x: 3, y: 40, w: 10, h: 20 });
    assert_eq!(r.key, "m/star.png");
    assert!(!r.rotated);
    assert_eq!(r.source_size, "{10, 20}");
    assert_eq!(r.sprite_size, "{10, 20}");
    assert_eq!(r.texture_rect, "{{3, 40}, {10, 20}}");
    assert_eq!(r.offset, "{0, 0}");
}

#[test]
fn manifest_sorted_by_key() {
    let p = |x| Placement { x, y: 0, w: 1, h: 1 };
    let m = build_manifest("n", &names(&["b", "a", "c", "B"]), &vec![p(0), p(1), p(2), p(3)]);
    let keys: Vec<&str> = m.iter().map(|r| r.key.as_str()).collect();
    assert_eq!(keys, vec!["n/B.png", "n/a.png", "n/b.png", "n/c.png"]);
    assert_eq!(m[1].texture_rect, "{{1, 0}, {1, 1}}");
}

#[test]
fn manifest_later_sprite_wins_shared_key() {
    let p = |x| Placement { x, y: 0, w: 2, h: 2 };
    let m = build_manifest("n", &names(&["x-hd", "y", "x"]), &vec![p(0), p(5), p(9)]);
    assert_eq!(m.len(), 2);
    assert_eq!(m[0].key, "n/x.png");
    assert_eq!(m[0].texture_rect, "{{9, 0}, {2, 2}}");
    assert_eq!(m[1].key, "n/y.png");
}

#[test]
fn manifest_of_nothing_is_empty() {
    assert!(build_manifest("n", &Vec::new(), &Vec::new()).is_empty());
}

#[test]
fn tier_builds_are_identical() {
    let n = names(&["zeta", "alpha", "mid-uhd", "beta"]);
    let sizes = vec![(12, 9), (30, 4), (7, 7), (16, 16)];
    let a = build_tier("pkg", &n, &sizes).unwrap();
    let b = build_tier("pkg", &n, &sizes).unwrap();
    assert_eq!(a.placements, b.placements);
    assert_eq!((a.width, a.height), (b.width, b.height));
    assert_eq!(a.manifest.len(), b.manifest.len());
    for (x, y) in a.manifest.iter().zip(b.manifest.iter()) {
        assert_eq!(x.key, y.key);
        assert_eq!(x.texture_rect, y.texture_rect);
        assert_eq!(x.source_size, y.source_size);
        assert_eq!(x.offset, y.offset);
    }
    let keys: Vec<&str> = a.manifest.iter().map(|r| r.key.as_str()).collect();
    assert_eq!(keys, vec!["pkg/alpha.png", "pkg/beta.png", "pkg/mid.png", "pkg/zeta.png"]);
}

#[test]
fn tier_frames_crop_to_sprite_sizes() {
    let n = names(&["a", "b", "c"]);
    let sizes = vec![(9, 5), (4, 12), (6, 6)];
    let t = build_tier("q", &n, &sizes).unwrap();
    for (i, s) in sizes.iter().enumerate() {
        let p = t.placements[i];
        assert_eq!((p.w, p.h), *s);
        assert!(p.x as u64 + p.w as u64 <= t.width);
        assert!(p.y as u64 + p.h as u64 <= t.height);
        let expected = format!("{{{{{}, {}}}, {{{}, {}}}}}", p.x, p.y, p.w, p.h);
        assert_eq!(t.manifest[i].texture_rect, expected);
    }
}

#[test]
fn tier_of_empty_sheet_is_invalid() {
    assert!(matches!(build_tier("q", &Vec::new(), &Vec::new()), Err(BuildError::InvalidInput)));
}

#[test]
fn tier_with_empty_sprite_fails_to_pack() {
    let r = build_tier("q", &names(&["a", "b"]), &vec![(4, 4), (0, 0)]);
    assert!(matches!(r, Err(BuildError::PackError { sprite: 1 })));
}

#[test]
fn tier_width_is_heuristic_width() {
    let t = build_tier("q", &names(&["a", "b", "c", "d"]), &vec![(10, 10); 4]).unwrap();
    assert_eq!(t.max_width, 20);
    assert_eq!(t.width, 20);
    assert_eq!(t.height, 20);
}

#[test]
fn scaled_sizes_round_down() {
    assert_eq!(scaled_size(10, 7, 2), (5, 3));
    assert_eq!(scaled_size(10, 7, 4), (2, 1));
    assert_eq!(scaled_size(10, 7, 1), (10, 7));
}
