//! Properties that relate the atlas functions to one another.
use vstd::prelude::*;

use crate::atlas::{
    atlas_width_ok, extent_of, frame_key_of, lemma_atlas_width_unique, from_last_sprite, has_key, is_layout_of, is_manifest_of, is_record_of, key_at,
    last_with_key, rect_text_of, strip_tier_suffix, FrameRecord, Placement, TierLayout,
};
use crate::text::{lemma_lex_lt_irreflexive, lemma_lex_lt_transitive, lex_lt};

verus! {

/// The text fields of a record.
pub open spec fn record_view(r: FrameRecord) -> (Seq<char>, bool, Seq<char>, Seq<char>, Seq<char>, Seq<char>) {
    (r.key@, r.rotated, r.source_size@, r.sprite_size@, r.texture_rect@, r.offset@)
}

/// Strictly increasing keys.
pub open spec fn strictly_sorted(a: Seq<Seq<char>>) -> bool {
    forall|i: int, j: int| 0 <= i < j < a.len() ==> lex_lt(#[trigger] a[i], #[trigger] a[j])
}

proof fn lemma_sorted_unique(a: Seq<Seq<char>>, b: Seq<Seq<char>>)
    requires
        strictly_sorted(a),
        strictly_sorted(b),
        forall|x: Seq<char>| a.contains(x) <==> b.contains(x),
    ensures
        a == b,
    decreases a.len(),
{
    if a.len() == 0 {
        if b.len() > 0 {
            assert(b.contains(b[0]));
        }
        assert(a =~= b);
    } else if b.len() == 0 {
        assert(a.contains(a[0]));
    } else {
        if a[0] != b[0] {
            assert(a.contains(a[0]));
            assert(b.contains(b[0]));
            let j = choose|j: int| 0 <= j < b.len() && b[j] == a[0];
            let k = choose|k: int| 0 <= k < a.len() && a[k] == b[0];
            assert(lex_lt(b[0], b[j]));
            assert(lex_lt(a[0], a[k]));
            lemma_lex_lt_transitive(a[0], b[0], a[0]);
            lemma_lex_lt_irreflexive(a[0]);
        }
        let ta = a.skip(1);
        let tb = b.skip(1);
        assert forall|x: Seq<char>| ta.contains(x) <==> tb.contains(x) by {
            if ta.contains(x) {
                let i = choose|i: int| 0 <= i < ta.len() && ta[i] == x;
                assert(lex_lt(a[0], a[i + 1]));
                lemma_lex_lt_irreflexive(a[0]);
                assert(a.contains(x));
                let j = choose|j: int| 0 <= j < b.len() && b[j] == x;
                assert(j != 0);
                assert(tb[j - 1] == x);
            }
            if tb.contains(x) {
                let i = choose|i: int| 0 <= i < tb.len() && tb[i] == x;
                assert(lex_lt(b[0], b[i + 1]));
                lemma_lex_lt_irreflexive(b[0]);
                assert(b.contains(x));
                let j = choose|j: int| 0 <= j < a.len() && a[j] == x;
                assert(j != 0);
                assert(ta[j - 1] == x);
            }
        }
        lemma_sorted_unique(ta, tb);
        assert(a =~= seq![a[0]] + ta);
        assert(b =~= seq![b[0]] + tb);
    }
}

/// The keys of a manifest, in order.
pub open spec fn keys_of(v: Seq<FrameRecord>) -> Seq<Seq<char>> {
    v.map_values(|r: FrameRecord| r.key@)
}

proof fn lemma_keys_contain(v: Seq<FrameRecord>, namespace: Seq<char>, names: Seq<String>, placements: Seq<Placement>, x: Seq<char>)
    requires
        is_manifest_of(v, namespace, names, placements),
    ensures
        keys_of(v).contains(x) <==> exists|i: int| 0 <= i < names.len() && key_at(namespace, names, i) == x,
{
    if keys_of(v).contains(x) {
        let j = choose|j: int| 0 <= j < keys_of(v).len() && keys_of(v)[j] == x;
        assert(from_last_sprite(v[j], namespace, names, placements));
        let i = choose|i: int|
            0 <= i < names.len() && #[trigger] is_record_of(v[j], namespace, names[i]@, placements[i])
                && last_with_key(namespace, names, i, names.len() as int);
        assert(key_at(namespace, names, i) == x);
    }
    if exists|i: int| 0 <= i < names.len() && key_at(namespace, names, i) == x {
        let i = choose|i: int| 0 <= i < names.len() && key_at(namespace, names, i) == x;
        assert(has_key(v, key_at(namespace, names, i)));
        let j = choose|j: int| 0 <= j < v.len() && #[trigger] v[j].key@ == key_at(namespace, names, i);
        assert(keys_of(v)[j] == x);
    }
}

/// A manifest is determined by the sprites and their placements: two
/// manifests of the same placed sprites hold the same records, in the same
/// order, whatever order the sprites were visited in.
pub proof fn lemma_manifest_deterministic(
    v1: Seq<FrameRecord>,
    v2: Seq<FrameRecord>,
    namespace: Seq<char>,
    names: Seq<String>,
    placements: Seq<Placement>,
)
    requires
        is_manifest_of(v1, namespace, names, placements),
        is_manifest_of(v2, namespace, names, placements),
    ensures
        v1.len() == v2.len(),
        forall|j: int| 0 <= j < v1.len() ==> record_view(#[trigger] v1[j]) == record_view(v2[j]),
{
    let k1 = keys_of(v1);
    let k2 = keys_of(v2);
    assert forall|x: Seq<char>| k1.contains(x) <==> k2.contains(x) by {
        lemma_keys_contain(v1, namespace, names, placements, x);
        lemma_keys_contain(v2, namespace, names, placements, x);
    }
    assert(strictly_sorted(k1)) by {
        assert forall|i: int, j: int| 0 <= i < j < k1.len() implies lex_lt(#[trigger] k1[i], #[trigger] k1[j]) by {
            assert(lex_lt(v1[i].key@, v1[j].key@));
        }
    }
    assert(strictly_sorted(k2)) by {
        assert forall|i: int, j: int| 0 <= i < j < k2.len() implies lex_lt(#[trigger] k2[i], #[trigger] k2[j]) by {
            assert(lex_lt(v2[i].key@, v2[j].key@));
        }
    }
    lemma_sorted_unique(k1, k2);
    assert forall|j: int| 0 <= j < v1.len() implies record_view(#[trigger] v1[j]) == record_view(v2[j]) by {
        assert(k1[j] == k2[j]);
        assert(from_last_sprite(v1[j], namespace, names, placements));
        assert(from_last_sprite(v2[j], namespace, names, placements));
        let i1 = choose|i: int|
            0 <= i < names.len() && #[trigger] is_record_of(v1[j], namespace, names[i]@, placements[i])
                && last_with_key(namespace, names, i, names.len() as int);
        let i2 = choose|i: int|
            0 <= i < names.len() && #[trigger] is_record_of(v2[j], namespace, names[i]@, placements[i])
                && last_with_key(namespace, names, i, names.len() as int);
        assert(key_at(namespace, names, i1) == key_at(namespace, names, i2));
        if i1 < i2 {
            assert(key_at(namespace, names, i2) != key_at(namespace, names, i1));
        } else if i2 < i1 {
            assert(key_at(namespace, names, i1) != key_at(namespace, names, i2));
        }
    }
}

proof fn lemma_extent_bounds(v: Seq<Placement>, i: int)
    requires
        0 <= i < v.len(),
    ensures
        v[i].x + v[i].w <= extent_of(v).0,
        v[i].y + v[i].h <= extent_of(v).1,
    decreases v.len(),
{
    if i < v.len() - 1 {
        lemma_extent_bounds(v.drop_last(), i);
    }
}

/// Every frame rectangle in a tier's manifest has the size of a sprite of
/// that tier and lies inside the atlas image, so cropping the atlas to it
/// gives back a region of exactly that sprite's size.
pub proof fn lemma_frames_round_trip(
    t: TierLayout,
    namespace: Seq<char>,
    names: Seq<String>,
    sizes: Seq<(u32, u32)>,
    j: int,
)
    requires
        is_layout_of(t, namespace, names, sizes),
        0 <= j < t.manifest@.len(),
    ensures
        exists|i: int|
            {
                &&& 0 <= i < sizes.len()
                &&& #[trigger] t.manifest@[j].texture_rect@ == rect_text_of(t.placements@[i])
                &&& t.placements@[i].w == sizes[i].0
                &&& t.placements@[i].h == sizes[i].1
                &&& t.placements@[i].x + t.placements@[i].w <= t.width
                &&& t.placements@[i].y + t.placements@[i].h <= t.height
            },
{
    assert(from_last_sprite(t.manifest@[j], namespace, names, t.placements@));
    let i = choose|i: int|
        0 <= i < names.len() && #[trigger] is_record_of(t.manifest@[j], namespace, names[i]@, t.placements@[i])
            && last_with_key(namespace, names, i, names.len() as int);
    lemma_extent_bounds(t.placements@, i);
    assert(t.placements@[i].w == sizes[i].0);
}

/// A tier's layout is determined by its sprites: two layouts of the same
/// names and sizes have the same atlas width, the same placements, the same
/// image size and the same manifest, record for record.
pub proof fn lemma_layout_deterministic(
    t1: TierLayout,
    t2: TierLayout,
    namespace: Seq<char>,
    names: Seq<String>,
    sizes: Seq<(u32, u32)>,
)
    requires
        is_layout_of(t1, namespace, names, sizes),
        is_layout_of(t2, namespace, names, sizes),
    ensures
        t1.max_width == t2.max_width,
        t1.placements@ == t2.placements@,
        t1.width == t2.width,
        t1.height == t2.height,
        t1.manifest@.len() == t2.manifest@.len(),
        forall|j: int| 0 <= j < t1.manifest@.len() ==> record_view(#[trigger] t1.manifest@[j]) == record_view(t2.manifest@[j]),
{
    lemma_atlas_width_unique(sizes, t1.max_width as nat);
    assert(atlas_width_ok(sizes, t2.max_width as nat));
    assert(t1.placements@ =~= t2.placements@) by {
        assert forall|i: int| 0 <= i < t1.placements@.len() implies t1.placements@[i] == t2.placements@[i] by {
            assert(t1.placements@[i].w == sizes[i].0);
            assert(t2.placements@[i].w == sizes[i].0);
        }
    }
    lemma_manifest_deterministic(t1.manifest@, t2.manifest@, namespace, names, t1.placements@);
}

/// A sprite's key is the same in every tier: the half (`-hd`) and full
/// (`-uhd`) names of a sprite key as its plain name, `<namespace>/<name>.png`.
pub proof fn lemma_tier_keys_agree(namespace: Seq<char>, base: Seq<char>)
    requires
        strip_tier_suffix(base) == base,
    ensures
        frame_key_of(namespace, base + "-hd"@) == frame_key_of(namespace, base),
        frame_key_of(namespace, base + "-uhd"@) == frame_key_of(namespace, base),
        frame_key_of(namespace, base) == namespace + "/"@ + base + ".png"@,
{
    reveal_strlit("-hd");
    reveal_strlit("-uhd");
    let h = base + "-hd"@;
    let u = base + "-uhd"@;
    assert(h.subrange(h.len() - 3, h.len() as int) =~= "-hd"@);
    assert(h.subrange(0, h.len() - 3) =~= base);
    assert(u.subrange(u.len() - 4, u.len() as int) =~= "-uhd"@);
    assert(u.subrange(0, u.len() - 4) =~= base);
    if h.len() >= 4 && h.subrange(h.len() - 4, h.len() as int) == "-uhd"@ {
        assert(h.subrange(h.len() - 4, h.len() as int)[1] == 'u');
        assert(h.subrange(h.len() - 3, h.len() as int)[0] == '-');
    }
}

} // verus!
