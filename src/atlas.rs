//! Atlas sizing, packing through texture_packer's skyline packer, and the
//! frame manifest that records where each sprite landed.
use vstd::prelude::*;

use crate::text::{decimal, lex_lt, signed_decimal, push_decimal, push_signed, str_eq, str_lt};
use texture_packer::{TexturePacker, TexturePackerConfig};

use crate::text::{lemma_lex_lt_irreflexive, lemma_lex_lt_total, lemma_lex_lt_transitive};

verus! {

/// Sum of the widths of `sizes` (each entry is `(width, height)`).
pub open spec fn width_sum(sizes: Seq<(u32, u32)>) -> nat
    decreases sizes.len(),
{
    if sizes.len() == 0 {
        0
    } else {
        width_sum(sizes.drop_last()) + sizes.last().0 as nat
    }
}

/// Sum of the heights of `sizes`.
pub open spec fn height_sum(sizes: Seq<(u32, u32)>) -> nat
    decreases sizes.len(),
{
    if sizes.len() == 0 {
        0
    } else {
        height_sum(sizes.drop_last()) + sizes.last().1 as nat
    }
}

/// The largest width among `sizes`, 0 when there are none.
pub open spec fn largest_width(sizes: Seq<(u32, u32)>) -> nat
    decreases sizes.len(),
{
    if sizes.len() == 0 {
        0
    } else {
        let rest = largest_width(sizes.drop_last());
        if sizes.last().0 as nat > rest { sizes.last().0 as nat } else { rest }
    }
}

/// `r` is `sqrt(x)` rounded to the nearest integer (halves upward), where
/// `q` is `4 * x` rounded down: `r - 1/2 <= sqrt(x) < r + 1/2`.
pub open spec fn is_rounded_sqrt(r: nat, q: nat) -> bool {
    (r == 0 || (2 * r - 1) * (2 * r - 1) <= q) && q < (2 * r + 1) * (2 * r + 1)
}

/// The heuristic width before clamping: `round(sqrt(width_sum * mean_height))`
/// with `mean_height = height_sum / count`, as the `r` with
/// `is_rounded_sqrt(r, (4 * width_sum * height_sum) / count)`.
pub open spec fn heuristic_width_ok(sizes: Seq<(u32, u32)>, r: nat) -> bool {
    is_rounded_sqrt(r, (4 * width_sum(sizes) * height_sum(sizes)) / sizes.len())
}

/// The atlas width for a set of sprites: the heuristic width, raised to
/// `largest + 2` when it is narrower than the widest sprite.
pub open spec fn atlas_width_ok(sizes: Seq<(u32, u32)>, w: nat) -> bool {
    exists|r: nat|
        heuristic_width_ok(sizes, r) && w == if r < largest_width(sizes) {
            largest_width(sizes) + 2
        } else {
            r
        }
}

/// The rounded square root of `x / 4`: the `r` with `is_rounded_sqrt(r, q)`.
pub fn rounded_sqrt_quarter(q: u128) -> (r: u64)
    requires
        q < 0x1_0000_0000_0000_0000_0000_0000u128,
    ensures
        is_rounded_sqrt(r as nat, q as nat),
{
    let mut lo: u64 = 0;
    let mut hi: u64 = 0x2_0000_0000_0000u64;
    proof {
        assert((2 * (hi as nat) + 1) * (2 * (hi as nat) + 1) > q) by (nonlinear_arith)
            requires hi == 0x2_0000_0000_0000u64, q < 0x1_0000_0000_0000_0000_0000_0000u128;
    }
    while lo < hi
        invariant
            lo <= hi <= 0x2_0000_0000_0000u64,
            lo == 0 || (2 * (lo as nat) - 1) * (2 * (lo as nat) - 1) <= q,
            q < (2 * (hi as nat) + 1) * (2 * (hi as nat) + 1),
        decreases hi - lo,
    {
        let mid: u64 = lo + (hi - lo) / 2;
        let k: u128 = 2 * (mid as u128) + 1;
        assert(k * k <= 0x20_0000_0000_0000_0000_0000_0000u128) by (nonlinear_arith)
            requires k <= 0x4_0000_0000_0001u128;
        if q < k * k {
            hi = mid;
        } else {
            lo = mid + 1;
        }
    }
    lo
}


/// Why a tier could not be built.
#[derive(PartialEq, Eq, Structural, Clone, Copy, Debug)]
pub enum BuildError {
    /// The sheet names no sprites.
    InvalidInput,
    /// The sprite at `sprite` is empty or does not fit the atlas width.
    PackError { sprite: usize },
    /// The sizes overflow the packer's 32-bit coordinates.
    TooLarge,
}

proof fn lemma_take_last<T>(s: Seq<T>, i: int)
    requires
        0 <= i < s.len(),
    ensures
        s.take(i + 1).drop_last() == s.take(i),
        s.take(i + 1).last() == s[i],
{
    assert(s.take(i + 1).drop_last() =~= s.take(i));
}

/// The widest atlas that a tier's sprites are packed into, from their sizes
/// `(width, height)`: `round(sqrt(width_sum * mean_height))`, raised to
/// `largest + 2` where that is narrower than the widest sprite. An empty set
/// of sprites has no mean height and is refused.
pub fn max_atlas_width(sizes: &Vec<(u32, u32)>) -> (r: Result<u64, BuildError>)
    requires
        width_sum(sizes@) <= u32::MAX,
    ensures
        r is Err <==> sizes@.len() == 0,
        r is Err ==> r->Err_0 == BuildError::InvalidInput,
        r is Ok ==> atlas_width_ok(sizes@, r->Ok_0 as nat),
        r is Ok ==> r->Ok_0 as nat >= largest_width(sizes@),
{
    let n = sizes.len();
    if n == 0 {
        return Err(BuildError::InvalidInput);
    }
    let mut w_sum: u64 = 0;
    let mut h_sum: u128 = 0;
    let mut largest: u32 = 0;
    let mut i: usize = 0;
    proof {
        assert(sizes@.take(0) =~= Seq::<(u32, u32)>::empty());
    }
    while i < n
        invariant
            n == sizes@.len(),
            0 <= i <= n,
            width_sum(sizes@) <= u32::MAX,
            w_sum as nat == width_sum(sizes@.take(i as int)),
            h_sum as nat == height_sum(sizes@.take(i as int)),
            largest as nat == largest_width(sizes@.take(i as int)),
            h_sum <= (i as nat) * (u32::MAX as nat),
        decreases n - i,
    {
        let (sw, sh) = sizes[i];
        proof {
            lemma_take_last(sizes@, i as int);
            lemma_width_sum_prefix(sizes@, i as int + 1);
        }
        w_sum = w_sum + sw as u64;
        h_sum = h_sum + sh as u128;
        if sw > largest {
            largest = sw;
        }
        i = i + 1;
    }
    proof {
        assert(sizes@.take(n as int) =~= sizes@);
    }
    let n128 = n as u128;
    let qh: u128 = h_sum / n128;
    let rh: u128 = h_sum % n128;
    proof {
        assert(qh <= u32::MAX) by (nonlinear_arith)
            requires h_sum <= (n as nat) * (u32::MAX as nat), n > 0, qh == h_sum / (n as u128);
        assert(rh < n128);
    }
    assert(w_sum <= u32::MAX);
    let w4: u128 = 4 * (w_sum as u128);
    assert(w4 * qh <= 0x10_0000_0000_0000_0000u128) by (nonlinear_arith)
        requires w4 <= 4 * 0xFFFF_FFFFu128, qh <= u32::MAX;
    assert(w4 * rh <= 0x4_0000_0000_0000_0000_0000_0000u128) by (nonlinear_arith)
        requires w4 <= 4 * 0xFFFF_FFFFu128, rh < n128, n128 <= 0xFFFF_FFFF_FFFF_FFFFu128;
    let a: u128 = w4 * qh;
    let b: u128 = w4 * rh;
    assert(b <= w4 * n128) by (nonlinear_arith)
        requires b == w4 * rh, rh < n128;
    assert(b / n128 <= w4) by {
        vstd::arithmetic::div_mod::lemma_div_is_ordered(b as int, (w4 * n128) as int, n128 as int);
        vstd::arithmetic::div_mod::lemma_div_multiples_vanish(w4 as int, n128 as int);
    }
    let q: u128 = a + b / n128;
    proof {
        let ws = width_sum(sizes@) as int;
        let hs = height_sum(sizes@) as int;
        assert(hs == (n as int) * (qh as int) + (rh as int)) by {
            vstd::arithmetic::div_mod::lemma_fundamental_div_mod(hs, n as int);
        }
        assert(4 * ws * hs == (b as int) + (4 * ws * (qh as int)) * (n as int)) by (nonlinear_arith)
            requires hs == (n as int) * (qh as int) + (rh as int), b == 4 * ws * (rh as int);
        vstd::arithmetic::div_mod::lemma_hoist_over_denominator(b as int, 4 * ws * (qh as int), n as nat);
        assert(q as nat == (4 * width_sum(sizes@) * height_sum(sizes@)) / sizes@.len());
    }
    let r = rounded_sqrt_quarter(q);
    let w: u64 = if r < largest as u64 { largest as u64 + 2 } else { r };
    proof {
        assert(heuristic_width_ok(sizes@, r as nat));
    }
    Ok(w)
}

proof fn lemma_width_sum_prefix(s: Seq<(u32, u32)>, i: int)
    requires
        0 <= i <= s.len(),
    ensures
        width_sum(s.take(i)) <= width_sum(s),
    decreases s.len(),
{
    if i < s.len() {
        assert(s.drop_last().take(i) =~= s.take(i));
        lemma_width_sum_prefix(s.drop_last(), i);
    } else {
        assert(s.take(i) =~= s);
    }
}


#[verifier::external_type_specification]
pub struct ExTexturePackerConfig(TexturePackerConfig);

/// A rectangle `(x, y, w, h)` inside an atlas.
#[derive(PartialEq, Eq, Structural, Clone, Copy, Debug)]
pub struct Placement {
    pub x: u32,
    pub y: u32,
    pub w: u32,
    pub h: u32,
}

/// Two rectangles `(x, y, w, h)` share no pixel.
pub open spec fn disjoint(a: (u32, u32, u32, u32), b: (u32, u32, u32, u32)) -> bool {
    a.0 + a.2 <= b.0 || b.0 + b.2 <= a.0 || a.1 + a.3 <= b.1 || b.1 + b.3 <= a.1
}

/// texture_packer's skyline packer, fed blank images of the sprites' sizes.
#[verifier::external_body]
pub struct SkylineAtlas {
    inner: TexturePacker<'static, image::RgbaImage, u64>,
}

/// The frames that the packer has placed, by key: `(x, y, w, h)`.
pub uninterp spec fn atlas_frames(a: SkylineAtlas) -> Map<u64, (u32, u32, u32, u32)>;

/// The width that the packer was made with.
pub uninterp spec fn atlas_max_width(a: SkylineAtlas) -> nat;

/// The sum of the heights packed so far, which bounds every skyline.
pub uninterp spec fn atlas_stacked_height(a: SkylineAtlas) -> nat;

/// No frames at all.
pub open spec fn no_frames() -> Map<u64, (u32, u32, u32, u32)> {
    Map::empty()
}

/// No sizes at all.
pub open spec fn no_sizes() -> Seq<(u32, u32)> {
    Seq::empty()
}

/// The frame under `key`, if any.
pub open spec fn frame_lookup(m: Map<u64, (u32, u32, u32, u32)>, key: u64) -> Option<(u32, u32, u32, u32)> {
    if m.contains_key(key) {
        Some(m[key])
    } else {
        None
    }
}

/// The packer configuration: untrimmed, unrotated, unpadded, of unbounded
/// height.
pub open spec fn plain_config(c: TexturePackerConfig, max_width: u32) -> bool {
    c.max_width == max_width && c.max_height == u32::MAX && !c.allow_rotation
        && !c.force_max_dimensions && c.border_padding == 0 && c.texture_padding == 0
        && c.texture_extrusion == 0 && !c.trim && !c.texture_outlines
}

/// Relies on TexturePacker::new_skyline: a packer with a single empty
/// skyline as wide as `config.max_width`, and no frames.
#[verifier::external_body]
fn new_skyline(config: TexturePackerConfig) -> (r: SkylineAtlas)
    requires
        plain_config(config, config.max_width),
    ensures
        atlas_frames(r) == no_frames(),
        atlas_max_width(r) == config.max_width,
        atlas_stacked_height(r) == 0,
        atlas_packed(r) == no_sizes(),
{
    SkylineAtlas { inner: TexturePacker::new_skyline(config) }
}

/// The sizes packed so far, in order.
pub uninterp spec fn atlas_packed(a: SkylineAtlas) -> Seq<(u32, u32)>;

/// Where the skyline packer, made `max_width` wide with the configuration of
/// `new_skyline`, puts a sprite of `size` after packing `packed` in order.
pub uninterp spec fn skyline_spot(max_width: nat, packed: Seq<(u32, u32)>, size: (u32, u32)) -> (u32, u32);

/// Relies on TexturePacker::pack_own, with the configuration of `new_skyline`:
/// the source rectangle is the whole image; the skyline packer places it
/// unrotated at a skyline whose span holds its width, above every skyline it
/// covers, so it meets no earlier frame and fits exactly when it is no wider
/// than the atlas. The skylines, and so the spot, follow from the width and
/// the sizes packed before; a refused sprite changes nothing.
/// `RgbaImage::new` makes the blank image of that size.
#[verifier::external_body]
fn pack_blank(atlas: &mut SkylineAtlas, key: u64, w: u32, h: u32) -> (r: bool)
    requires
        1 <= w,
        1 <= h,
        1 <= atlas_max_width(*old(atlas)),
        (w as nat) * (h as nat) * 4 <= usize::MAX,
        w + atlas_max_width(*old(atlas)) <= u32::MAX,
        atlas_stacked_height(*old(atlas)) + h < u32::MAX,
    ensures
        atlas_max_width(*final(atlas)) == atlas_max_width(*old(atlas)),
        r == (w <= atlas_max_width(*old(atlas))),
        !r ==> atlas_frames(*final(atlas)) == atlas_frames(*old(atlas)),
        !r ==> atlas_packed(*final(atlas)) == atlas_packed(*old(atlas)),
        !r ==> atlas_stacked_height(*final(atlas)) == atlas_stacked_height(*old(atlas)),
        r ==> atlas_stacked_height(*final(atlas)) == atlas_stacked_height(*old(atlas)) + h,
        r ==> atlas_packed(*final(atlas)) == atlas_packed(*old(atlas)).push((w, h)),
        r ==> atlas_frames(*final(atlas)) == atlas_frames(*old(atlas)).insert(
            key,
            spot_rect(skyline_spot(atlas_max_width(*old(atlas)), atlas_packed(*old(atlas)), (w, h)), w, h),
        ),
        r ==> skyline_spot(atlas_max_width(*old(atlas)), atlas_packed(*old(atlas)), (w, h)).0 + w
            <= atlas_max_width(*final(atlas)),
        r ==> skyline_spot(atlas_max_width(*old(atlas)), atlas_packed(*old(atlas)), (w, h)).1 + h
            <= atlas_stacked_height(*final(atlas)),
        r ==> forall|k: u64| #[trigger] atlas_frames(*old(atlas)).contains_key(k) && k != key
            ==> disjoint(
                atlas_frames(*final(atlas))[k],
                spot_rect(skyline_spot(atlas_max_width(*old(atlas)), atlas_packed(*old(atlas)), (w, h)), w, h),
            ),
{
    atlas.inner.pack_own(key, image::RgbaImage::new(w, h)).is_ok()
}

/// The rectangle of size `(w, h)` at `spot`.
pub open spec fn spot_rect(spot: (u32, u32), w: u32, h: u32) -> (u32, u32, u32, u32) {
    (spot.0, spot.1, w, h)
}

/// Relies on TexturePacker::get_frame: the frame recorded under `key`.
#[verifier::external_body]
fn frame_of(atlas: &SkylineAtlas, key: u64) -> (r: Option<(u32, u32, u32, u32)>)
    ensures
        r == frame_lookup(atlas_frames(*atlas), key),
{
    atlas.inner.get_frame(&key).map(|f| (f.frame.x, f.frame.y, f.frame.w, f.frame.h))
}

/// The rectangle of a placement.
pub open spec fn rect_of(p: Placement) -> (u32, u32, u32, u32) {
    (p.x, p.y, p.w, p.h)
}

/// Whether a sprite of this size can be placed in an atlas `max_width` wide.
pub open spec fn fits(size: (u32, u32), max_width: nat) -> bool {
    1 <= size.0 && size.0 <= max_width && 1 <= size.1
}

/// Sizes whose packing stays within the packer's 32-bit coordinates.
pub open spec fn packable_sizes(sizes: Seq<(u32, u32)>, max_width: nat) -> bool {
    &&& height_sum(sizes) < u32::MAX
    &&& forall|i: int| 0 <= i < sizes.len() ==> {
        &&& (#[trigger] sizes[i]).0 + max_width <= u32::MAX
        &&& (sizes[i].0 as nat) * (sizes[i].1 as nat) * 4 <= usize::MAX
    }
}

proof fn lemma_height_sum_prefix(s: Seq<(u32, u32)>, i: int)
    requires
        0 <= i <= s.len(),
    ensures
        height_sum(s.take(i)) <= height_sum(s),
    decreases s.len(),
{
    if i < s.len() {
        assert(s.drop_last().take(i) =~= s.take(i));
        lemma_height_sum_prefix(s.drop_last(), i);
    } else {
        assert(s.take(i) =~= s);
    }
}

/// The spot of the `i`-th sprite when `sizes` are packed in order into an
/// atlas `max_width` wide.
pub open spec fn spot_of(sizes: Seq<(u32, u32)>, max_width: nat, i: int) -> (u32, u32) {
    skyline_spot(max_width, sizes.take(i), sizes[i])
}

/// Packs sprites of the given sizes, in order, into an atlas `max_width`
/// wide with no rotation, no trimming and no padding. Every sprite keeps its
/// size, lies within the width, and no two overlap; where each goes follows
/// from the sizes and the width alone. The first sprite that is empty or
/// wider than the atlas fails the whole packing.
pub fn pack_sprites(sizes: &Vec<(u32, u32)>, max_width: u32) -> (r: Result<Vec<Placement>, BuildError>)
    requires
        packable_sizes(sizes@, max_width as nat),
    ensures
        r is Ok <==> forall|i: int| 0 <= i < sizes@.len() ==> fits(#[trigger] sizes@[i], max_width as nat),
        r is Err ==> exists|i: int|
            {
                &&& 0 <= i < sizes@.len()
                &&& r->Err_0 == (BuildError::PackError { sprite: i as usize })
                &&& !fits(sizes@[i], max_width as nat)
                &&& forall|j: int| 0 <= j < i ==> fits(#[trigger] sizes@[j], max_width as nat)
            },
        r is Ok ==> {
            let v = r->Ok_0@;
            &&& v.len() == sizes@.len()
            &&& forall|i: int| 0 <= i < v.len() ==> {
                &&& (#[trigger] v[i]).w == sizes@[i].0
                &&& v[i].h == sizes@[i].1
                &&& v[i].x + v[i].w <= max_width
                &&& v[i].x == spot_of(sizes@, max_width as nat, i).0
                &&& v[i].y == spot_of(sizes@, max_width as nat, i).1
            }
            &&& forall|i: int, j: int| 0 <= i < v.len() && 0 <= j < v.len() && i != j
                ==> disjoint(rect_of(#[trigger] v[i]), rect_of(#[trigger] v[j]))
        },
{
    let config = TexturePackerConfig {
        max_width: max_width,
        max_height: u32::MAX,
        allow_rotation: false,
        force_max_dimensions: false,
        border_padding: 0,
        texture_padding: 0,
        texture_extrusion: 0,
        trim: false,
        texture_outlines: false,
    };
    let mut atlas = new_skyline(config);
    let n = sizes.len();
    let mut i: usize = 0;
    proof {
        assert(sizes@.take(0) =~= Seq::<(u32, u32)>::empty());
    }
    while i < n
        invariant
            n == sizes@.len(),
            0 <= i <= n,
            packable_sizes(sizes@, max_width as nat),
            atlas_max_width(atlas) == max_width,
            atlas_stacked_height(atlas) == height_sum(sizes@.take(i as int)),
            atlas_packed(atlas) == sizes@.take(i as int),
            forall|j: int| 0 <= j < i ==> fits(#[trigger] sizes@[j], max_width as nat),
            forall|k: u64| #[trigger] atlas_frames(atlas).contains_key(k) <==> k < i,
            forall|k: u64| k < i ==> {
                &&& (#[trigger] atlas_frames(atlas)[k]).2 == sizes@[k as int].0
                &&& atlas_frames(atlas)[k].3 == sizes@[k as int].1
                &&& atlas_frames(atlas)[k].0 + atlas_frames(atlas)[k].2 <= max_width
                &&& atlas_frames(atlas)[k].0 == spot_of(sizes@, max_width as nat, k as int).0
                &&& atlas_frames(atlas)[k].1 == spot_of(sizes@, max_width as nat, k as int).1
            },
            forall|a: u64, b: u64| a < i && b < i && a != b
                ==> disjoint(#[trigger] atlas_frames(atlas)[a], #[trigger] atlas_frames(atlas)[b]),
        decreases n - i,
    {
        let (w, h) = sizes[i];
        proof {
            lemma_take_last(sizes@, i as int);
            lemma_height_sum_prefix(sizes@, i as int + 1);
        }
        if w == 0 || h == 0 || w > max_width {
            return Err(BuildError::PackError { sprite: i });
        }
        let ghost before = atlas;
        let placed = pack_blank(&mut atlas, i as u64, w, h);
        proof {
            let key = i as u64;
            assert(placed);
            assert(sizes@.take(i as int + 1) =~= sizes@.take(i as int).push((w, h)));
            assert forall|a: u64, b: u64| a < i + 1 && b < i + 1 && a != b
                implies disjoint(#[trigger] atlas_frames(atlas)[a], #[trigger] atlas_frames(atlas)[b]) by {
                if a == key {
                    assert(atlas_frames(before).contains_key(b));
                } else if b == key {
                    assert(atlas_frames(before).contains_key(a));
                }
            }
        }
        i = i + 1;
    }
    let mut out: Vec<Placement> = Vec::new();
    let mut k: usize = 0;
    while k < n
        invariant
            n == sizes@.len(),
            0 <= k <= n,
            forall|c: u64| #[trigger] atlas_frames(atlas).contains_key(c) <==> c < n,
            forall|c: u64| c < n ==> {
                &&& (#[trigger] atlas_frames(atlas)[c]).2 == sizes@[c as int].0
                &&& atlas_frames(atlas)[c].3 == sizes@[c as int].1
                &&& atlas_frames(atlas)[c].0 + atlas_frames(atlas)[c].2 <= max_width
                &&& atlas_frames(atlas)[c].0 == spot_of(sizes@, max_width as nat, c as int).0
                &&& atlas_frames(atlas)[c].1 == spot_of(sizes@, max_width as nat, c as int).1
            },
            out@.len() == k,
            forall|j: int| 0 <= j < k ==> rect_of(#[trigger] out@[j]) == atlas_frames(atlas)[j as u64],
        decreases n - k,
    {
        let f = frame_of(&atlas, k as u64);
        match f {
            Some((x, y, w, h)) => {
                out.push(Placement { x, y, w, h });
            },
            None => {
                proof {
                    assert(false);
                }
            },
        }
        k = k + 1;
    }
    Ok(out)
}


/// A sprite name without a trailing `-uhd` or `-hd` tier suffix.
pub open spec fn strip_tier_suffix(name: Seq<char>) -> Seq<char> {
    if name.len() >= 4 && name.subrange(name.len() - 4, name.len() as int) == "-uhd"@ {
        name.subrange(0, name.len() - 4)
    } else if name.len() >= 3 && name.subrange(name.len() - 3, name.len() as int) == "-hd"@ {
        name.subrange(0, name.len() - 3)
    } else {
        name
    }
}

/// The manifest key of a sprite: `<namespace>/<base-name>.png`, where the
/// base name has its tier suffix stripped.
pub open spec fn frame_key_of(namespace: Seq<char>, name: Seq<char>) -> Seq<char> {
    namespace + "/"@ + strip_tier_suffix(name) + ".png"@
}

/// `{a, b}`.
pub open spec fn pair_text_of(a: Seq<char>, b: Seq<char>) -> Seq<char> {
    "{"@ + a + ", "@ + b + "}"@
}

/// `{{x, y}, {w, h}}`.
pub open spec fn rect_text_of(p: Placement) -> Seq<char> {
    pair_text_of(
        pair_text_of(decimal(p.x as nat), decimal(p.y as nat)),
        pair_text_of(decimal(p.w as nat), decimal(p.h as nat)),
    )
}

/// `{w, h}`.
pub open spec fn size_text_of(p: Placement) -> Seq<char> {
    pair_text_of(decimal(p.w as nat), decimal(p.h as nat))
}

/// The offset of an untrimmed sprite, `{x, -y}` of its source origin `(0, 0)`.
pub open spec fn offset_text_of() -> Seq<char> {
    pair_text_of(signed_decimal(0), signed_decimal(-0))
}

/// One frame of a manifest, each geometry field in the brace grammar.
#[derive(Debug)]
pub struct FrameRecord {
    pub key: String,
    pub rotated: bool,
    pub source_size: String,
    pub sprite_size: String,
    pub texture_rect: String,
    pub offset: String,
}

/// `r` is the record of the sprite `name` placed at `p`.
pub open spec fn is_record_of(r: FrameRecord, namespace: Seq<char>, name: Seq<char>, p: Placement) -> bool {
    &&& r.key@ == frame_key_of(namespace, name)
    &&& !r.rotated
    &&& r.source_size@ == size_text_of(p)
    &&& r.sprite_size@ == size_text_of(p)
    &&& r.texture_rect@ == rect_text_of(p)
    &&& r.offset@ == offset_text_of()
}

/// The manifest key of the sprite `name` in `namespace`.
pub fn frame_key(namespace: &str, name: &str) -> (r: String)
    ensures
        r@ == frame_key_of(namespace@, name@),
{
    proof {
        reveal_strlit("/");
        reveal_strlit(".png");
        reveal_strlit("-uhd");
        reveal_strlit("-hd");
    }
    let n = name.unicode_len();
    let mut cut: usize = n;
    if n >= 4 && str_eq(name.substring_char(n - 4, n), "-uhd") {
        cut = n - 4;
    } else if n >= 3 && str_eq(name.substring_char(n - 3, n), "-hd") {
        cut = n - 3;
    }
    let mut r = String::from_str(namespace);
    r.append("/");
    r.append(name.substring_char(0, cut));
    r.append(".png");
    proof {
        assert(name@.subrange(0, n as int) =~= name@);
        assert(r@ =~= frame_key_of(namespace@, name@));
    }
    r
}

fn pair_text(a: String, b: String) -> (r: String)
    ensures
        r@ == pair_text_of(a@, b@),
{
    proof {
        reveal_strlit("{");
        reveal_strlit(", ");
        reveal_strlit("}");
    }
    let mut r = String::from_str("{");
    r.append(a.as_str());
    r.append(", ");
    r.append(b.as_str());
    r.append("}");
    proof {
        assert(r@ =~= pair_text_of(a@, b@));
    }
    r
}

fn decimal_text(n: u32) -> (r: String)
    ensures
        r@ == decimal(n as nat),
{
    let mut r = String::new();
    push_decimal(&mut r, n as u64);
    proof {
        assert(r@ =~= decimal(n as nat));
    }
    r
}

fn signed_text(v: i64) -> (r: String)
    ensures
        r@ == signed_decimal(v as int),
{
    let mut r = String::new();
    push_signed(&mut r, v);
    proof {
        assert(r@ =~= signed_decimal(v as int));
    }
    r
}

/// The record of the sprite `name` placed at `p`.
pub fn frame_record(namespace: &str, name: &str, p: &Placement) -> (r: FrameRecord)
    ensures
        is_record_of(r, namespace@, name@, *p),
{
    let source_x: i64 = 0;
    let source_y: i64 = 0;
    FrameRecord {
        key: frame_key(namespace, name),
        rotated: false,
        source_size: pair_text(decimal_text(p.w), decimal_text(p.h)),
        sprite_size: pair_text(decimal_text(p.w), decimal_text(p.h)),
        texture_rect: pair_text(
            pair_text(decimal_text(p.x), decimal_text(p.y)),
            pair_text(decimal_text(p.w), decimal_text(p.h)),
        ),
        offset: pair_text(signed_text(source_x), signed_text(-source_y)),
    }
}


/// Keys in strictly increasing lexicographic order.
pub open spec fn keys_sorted(v: Seq<FrameRecord>) -> bool {
    forall|a: int, b: int| 0 <= a < b < v.len() ==> lex_lt(#[trigger] v[a].key@, #[trigger] v[b].key@)
}

/// The key of the `i`-th sprite.
pub open spec fn key_at(namespace: Seq<char>, names: Seq<String>, i: int) -> Seq<char> {
    frame_key_of(namespace, names[i]@)
}

/// Sprite `i` is the last of the first `n` sprites with its key.
pub open spec fn last_with_key(namespace: Seq<char>, names: Seq<String>, i: int, n: int) -> bool {
    forall|k: int| i < k < n ==> key_at(namespace, names, k) != key_at(namespace, names, i)
}

/// `r` is the record of a sprite that is the last with its key.
pub open spec fn from_last_sprite(
    r: FrameRecord,
    namespace: Seq<char>,
    names: Seq<String>,
    placements: Seq<Placement>,
) -> bool {
    exists|i: int|
        0 <= i < names.len() && #[trigger] is_record_of(r, namespace, names[i]@, placements[i])
            && last_with_key(namespace, names, i, names.len() as int)
}

/// Some record of `v` has the key `key`.
pub open spec fn has_key(v: Seq<FrameRecord>, key: Seq<char>) -> bool {
    exists|j: int| 0 <= j < v.len() && #[trigger] v[j].key@ == key
}

/// `v` is the manifest of the sprites `names` placed at `placements`: sorted
/// by key, one record per distinct key, that of the last sprite that has it.
pub open spec fn is_manifest_of(
    v: Seq<FrameRecord>,
    namespace: Seq<char>,
    names: Seq<String>,
    placements: Seq<Placement>,
) -> bool {
    &&& keys_sorted(v)
    &&& forall|j: int| 0 <= j < v.len() ==> #[trigger] from_last_sprite(v[j], namespace, names, placements)
    &&& forall|i: int| 0 <= i < names.len() ==> #[trigger] has_key(v, key_at(namespace, names, i))
}

proof fn lemma_lt_ne(a: Seq<char>, b: Seq<char>)
    requires
        lex_lt(a, b),
    ensures
        a != b,
{
    lemma_lex_lt_irreflexive(a);
}

/// The frame manifest of sprites `names` placed at `placements`, in key
/// order whatever the order of the sprites. Where two sprites share a key,
/// the later one's record stands.
pub fn build_manifest(namespace: &str, names: &Vec<String>, placements: &Vec<Placement>) -> (r: Vec<FrameRecord>)
    requires
        names@.len() == placements@.len(),
    ensures
        is_manifest_of(r@, namespace@, names@, placements@),
{
    let n = names.len();
    let mut out: Vec<FrameRecord> = Vec::new();
    let ghost mut src: Seq<int> = Seq::empty();
    let ghost mut pos: Seq<int> = Seq::empty();
    let ghost ns = namespace@;
    let mut i: usize = 0;
    while i < n
        invariant
            n == names@.len(),
            n == placements@.len(),
            ns == namespace@,
            0 <= i <= n,
            keys_sorted(out@),
            src.len() == out@.len(),
            forall|j: int| 0 <= j < out@.len() ==> {
                &&& 0 <= #[trigger] src[j] < i
                &&& is_record_of(out@[j], ns, names@[src[j]]@, placements@[src[j]])
                &&& last_with_key(ns, names@, src[j], i as int)
            },
            pos.len() == i,
            forall|k: int| 0 <= k < i ==> {
                &&& 0 <= #[trigger] pos[k] < out@.len()
                &&& out@[pos[k]].key@ == key_at(ns, names@, k)
            },
        decreases n - i,
    {
        let rec = frame_record(namespace, names[i].as_str(), &placements[i]);
        let ghost key = rec.key@;
        let len = out.len();
        let mut p: usize = 0;
        let mut stop = false;
        while p < len && !stop
            invariant
                len == out@.len(),
                0 <= p <= len,
                key == rec.key@,
                forall|q: int| 0 <= q < p ==> lex_lt(#[trigger] out@[q].key@, key),
                stop ==> p < len && !lex_lt(out@[p as int].key@, key),
            decreases len - p + if stop { 0int } else { 1int },
        {
            if str_lt(out[p].key.as_str(), rec.key.as_str()) {
                p = p + 1;
            } else {
                stop = true;
            }
        }
        let same = p < len && !str_lt(rec.key.as_str(), out[p].key.as_str());
        proof {
            if p < len && !same {
                assert(lex_lt(key, out@[p as int].key@));
            }
            if same {
                if out@[p as int].key@ != key {
                    lemma_lex_lt_total(out@[p as int].key@, key);
                }
            }
        }
        let ghost old_out = out@;
        if same {
            out.remove(p);
            out.insert(p, rec);
            proof {
                assert(out@ =~= old_out.update(p as int, out@[p as int]));
                src = src.update(p as int, i as int);
                pos = pos.push(p as int);
                assert forall|a: int, b: int| 0 <= a < b < out@.len()
                    implies lex_lt(#[trigger] out@[a].key@, #[trigger] out@[b].key@) by {
                    assert(lex_lt(old_out[a].key@, old_out[b].key@));
                }
                assert forall|j: int| 0 <= j < out@.len() implies {
                    &&& 0 <= #[trigger] src[j] < i + 1
                    &&& is_record_of(out@[j], ns, names@[src[j]]@, placements@[src[j]])
                    &&& last_with_key(ns, names@, src[j], i as int + 1)
                } by {
                    if j != p {
                        if j < p {
                            lemma_lt_ne(old_out[j].key@, old_out[p as int].key@);
                        } else {
                            lemma_lt_ne(old_out[p as int].key@, old_out[j].key@);
                        }
                    }
                }
            }
        } else {
            out.insert(p, rec);
            proof {
                let old_src = src;
                let old_pos = pos;
                src = src.insert(p as int, i as int);
                pos = Seq::new(i as nat + 1, |k: int| if k == i { p as int } else if old_pos[k] >= p { old_pos[k] + 1 } else { old_pos[k] });
                assert forall|q: int| p <= q < len implies lex_lt(key, #[trigger] old_out[q].key@) by {
                    if q > p {
                        lemma_lex_lt_transitive(key, old_out[p as int].key@, old_out[q].key@);
                    }
                }
                assert forall|a: int, b: int| 0 <= a < b < out@.len()
                    implies lex_lt(#[trigger] out@[a].key@, #[trigger] out@[b].key@) by {
                    if b < p {
                        assert(lex_lt(old_out[a].key@, old_out[b].key@));
                    } else if a < p && b == p {
                    } else if a < p {
                        assert(lex_lt(old_out[a].key@, key));
                        lemma_lex_lt_transitive(old_out[a].key@, key, old_out[b - 1].key@);
                    } else if a == p {
                        assert(lex_lt(key, old_out[b - 1].key@));
                    } else {
                        assert(lex_lt(old_out[a - 1].key@, old_out[b - 1].key@));
                    }
                }
                assert forall|j: int| 0 <= j < out@.len() implies {
                    &&& 0 <= #[trigger] src[j] < i + 1
                    &&& is_record_of(out@[j], ns, names@[src[j]]@, placements@[src[j]])
                    &&& last_with_key(ns, names@, src[j], i as int + 1)
                } by {
                    if j < p {
                        assert(src[j] == old_src[j]);
                        lemma_lt_ne(old_out[j].key@, key);
                    } else if j > p {
                        assert(src[j] == old_src[j - 1]);
                        lemma_lt_ne(key, old_out[j - 1].key@);
                    }
                }
                assert forall|k: int| 0 <= k < i + 1 implies {
                    &&& 0 <= #[trigger] pos[k] < out@.len()
                    &&& out@[pos[k]].key@ == key_at(ns, names@, k)
                } by {
                    if k < i {
                        assert(0 <= old_pos[k] < old_out.len());
                    }
                }
            }
        }
        i = i + 1;
    }
    proof {
        assert forall|j: int| 0 <= j < out@.len() implies #[trigger] from_last_sprite(out@[j], ns, names@, placements@) by {
            assert(0 <= src[j] < n);
            assert(is_record_of(out@[j], ns, names@[src[j]]@, placements@[src[j]]));
        }
        assert forall|k: int| 0 <= k < names@.len() implies #[trigger] has_key(out@, key_at(ns, names@, k)) by {
            assert(0 <= pos[k] < out@.len());
            assert(out@[pos[k]].key@ == key_at(ns, names@, k));
        }
    }
    out
}


/// The extent `(width, height)` of a set of placements: the furthest right
/// and bottom edges, `(0, 0)` for none.
pub open spec fn extent_of(v: Seq<Placement>) -> (nat, nat)
    decreases v.len(),
{
    if v.len() == 0 {
        (0, 0)
    } else {
        let rest = extent_of(v.drop_last());
        let p = v.last();
        (
            if p.x + p.w > rest.0 { (p.x + p.w) as nat } else { rest.0 },
            if p.y + p.h > rest.1 { (p.y + p.h) as nat } else { rest.1 },
        )
    }
}

/// The size of the atlas image that holds `placements`.
pub fn atlas_extent(placements: &Vec<Placement>) -> (r: (u64, u64))
    ensures
        r.0 as nat == extent_of(placements@).0,
        r.1 as nat == extent_of(placements@).1,
{
    let mut w: u64 = 0;
    let mut h: u64 = 0;
    let mut i: usize = 0;
    proof {
        assert(placements@.take(0) =~= Seq::<Placement>::empty());
    }
    while i < placements.len()
        invariant
            0 <= i <= placements@.len(),
            w as nat == extent_of(placements@.take(i as int)).0,
            h as nat == extent_of(placements@.take(i as int)).1,
            w <= u32::MAX * 2,
            h <= u32::MAX * 2,
        decreases placements@.len() - i,
    {
        let p = &placements[i];
        proof {
            lemma_take_last(placements@, i as int);
        }
        let right = p.x as u64 + p.w as u64;
        let bottom = p.y as u64 + p.h as u64;
        if right > w {
            w = right;
        }
        if bottom > h {
            h = bottom;
        }
        i = i + 1;
    }
    proof {
        assert(placements@.take(placements@.len() as int) =~= placements@);
    }
    (w, h)
}

/// Whether the widths of `sizes` sum to at most `u32::MAX`.
pub fn widths_fit(sizes: &Vec<(u32, u32)>) -> (r: bool)
    ensures
        r == (width_sum(sizes@) <= u32::MAX),
{
    let mut total: u64 = 0;
    let mut i: usize = 0;
    proof {
        assert(sizes@.take(0) =~= Seq::<(u32, u32)>::empty());
    }
    while i < sizes.len()
        invariant
            0 <= i <= sizes@.len(),
            total as nat == width_sum(sizes@.take(i as int)),
            total <= u32::MAX,
        decreases sizes@.len() - i,
    {
        proof {
            lemma_take_last(sizes@, i as int);
            lemma_width_sum_prefix(sizes@, i as int + 1);
        }
        total = total + sizes[i].0 as u64;
        if total > u32::MAX as u64 {
            return false;
        }
        i = i + 1;
    }
    proof {
        assert(sizes@.take(sizes@.len() as int) =~= sizes@);
    }
    true
}

/// Whether sprites of these sizes can go through the packer in an atlas
/// `max_width` wide without overflowing its 32-bit coordinates.
pub fn sizes_packable(sizes: &Vec<(u32, u32)>, max_width: u32) -> (r: bool)
    ensures
        r == packable_sizes(sizes@, max_width as nat),
{
    let mut total: u64 = 0;
    let mut i: usize = 0;
    proof {
        assert(sizes@.take(0) =~= Seq::<(u32, u32)>::empty());
    }
    while i < sizes.len()
        invariant
            0 <= i <= sizes@.len(),
            total as nat == height_sum(sizes@.take(i as int)),
            total < u32::MAX,
            forall|j: int| 0 <= j < i ==> {
                &&& (#[trigger] sizes@[j]).0 + max_width <= u32::MAX
                &&& (sizes@[j].0 as nat) * (sizes@[j].1 as nat) * 4 <= usize::MAX
            },
        decreases sizes@.len() - i,
    {
        let (w, h) = sizes[i];
        proof {
            lemma_take_last(sizes@, i as int);
            lemma_height_sum_prefix(sizes@, i as int + 1);
        }
        total = total + h as u64;
        if total >= u32::MAX as u64 {
            return false;
        }
        if w as u64 + max_width as u64 > u32::MAX as u64 {
            return false;
        }
        let w128 = w as u128;
        let h128 = h as u128;
        assert(w128 * h128 <= 0xFFFF_FFFF_FFFF_FFFFu128) by (nonlinear_arith)
            requires w128 <= 0xFFFF_FFFFu128, h128 <= 0xFFFF_FFFFu128;
        let area: u128 = w128 * h128 * 4;
        if area > usize::MAX as u128 {
            return false;
        }
        i = i + 1;
    }
    proof {
        assert(sizes@.take(sizes@.len() as int) =~= sizes@);
    }
    true
}

/// One resolution tier laid out: the atlas width it was packed into, where
/// each sprite went, the size of the atlas image and its manifest.
pub struct TierLayout {
    pub max_width: u32,
    pub placements: Vec<Placement>,
    pub width: u64,
    pub height: u64,
    pub manifest: Vec<FrameRecord>,
}

/// `t` lays out the sprites `names` of sizes `sizes`: packed into the atlas
/// width of those sizes, each keeping its size at the packer's spot for it,
/// within the width and apart from the others; the image spans the placements; the manifest records them.
pub open spec fn is_layout_of(t: TierLayout, namespace: Seq<char>, names: Seq<String>, sizes: Seq<(u32, u32)>) -> bool {
    &&& atlas_width_ok(sizes, t.max_width as nat)
    &&& names.len() == sizes.len()
    &&& t.placements@.len() == sizes.len()
    &&& forall|i: int| 0 <= i < sizes.len() ==> {
        &&& (#[trigger] t.placements@[i]).w == sizes[i].0
        &&& t.placements@[i].h == sizes[i].1
        &&& t.placements@[i].x + t.placements@[i].w <= t.max_width
        &&& t.placements@[i].x == spot_of(sizes, t.max_width as nat, i).0
        &&& t.placements@[i].y == spot_of(sizes, t.max_width as nat, i).1
    }
    &&& forall|i: int, j: int| 0 <= i < sizes.len() && 0 <= j < sizes.len() && i != j
        ==> disjoint(rect_of(#[trigger] t.placements@[i]), rect_of(#[trigger] t.placements@[j]))
    &&& t.width as nat == extent_of(t.placements@).0
    &&& t.height as nat == extent_of(t.placements@).1
    &&& is_manifest_of(t.manifest@, namespace, names, t.placements@)
}

/// Lays out one tier from its sprites' names and (resized) sizes: sizes the
/// atlas, packs the sprites in order and builds the manifest. Fails on an
/// empty sheet, on sizes past the packer's 32-bit coordinates, and on the
/// first sprite that does not fit.
pub fn build_tier(namespace: &str, names: &Vec<String>, sizes: &Vec<(u32, u32)>) -> (r: Result<TierLayout, BuildError>)
    requires
        names@.len() == sizes@.len(),
    ensures
        sizes@.len() == 0 <==> r == Err::<TierLayout, BuildError>(BuildError::InvalidInput),
        r is Ok ==> is_layout_of(r->Ok_0, namespace@, names@, sizes@),
        r == Err::<TierLayout, BuildError>(BuildError::TooLarge) <==> sizes@.len() > 0 && (
            width_sum(sizes@) > u32::MAX || exists|w: nat| #[trigger] atlas_width_ok(sizes@, w)
                && (w > u32::MAX || !packable_sizes(sizes@, w))),
        forall|k: usize| r == Err::<TierLayout, BuildError>(BuildError::PackError { sprite: k }) ==> {
            &&& (k as int) < sizes@.len()
            &&& !fits(sizes@[k as int], t_width(sizes@))
            &&& forall|j: int| 0 <= j < k ==> fits(#[trigger] sizes@[j], t_width(sizes@))
        },
        r is Ok <==> sizes@.len() > 0 && width_sum(sizes@) <= u32::MAX && t_width(sizes@) <= u32::MAX
            && packable_sizes(sizes@, t_width(sizes@))
            && forall|i: int| 0 <= i < sizes@.len() ==> fits(#[trigger] sizes@[i], t_width(sizes@)),
{
    if sizes.len() == 0 {
        return Err(BuildError::InvalidInput);
    }
    if !widths_fit(sizes) {
        return Err(BuildError::TooLarge);
    }
    let wide = max_atlas_width(sizes);
    let max_width: u64 = match wide {
        Ok(w) => w,
        Err(e) => {
            return Err(e);
        },
    };
    proof {
        lemma_atlas_width_unique(sizes@, max_width as nat);
    }
    if max_width > u32::MAX as u64 || !sizes_packable(sizes, max_width as u32) {
        return Err(BuildError::TooLarge);
    }
    let placements = match pack_sprites(sizes, max_width as u32) {
        Ok(v) => v,
        Err(e) => {
            return Err(e);
        },
    };
    let (width, height) = atlas_extent(&placements);
    let manifest = build_manifest(namespace, names, &placements);
    Ok(TierLayout { max_width: max_width as u32, placements, width, height, manifest })
}

/// The atlas width of a non-empty set of sprites.
pub open spec fn t_width(sizes: Seq<(u32, u32)>) -> nat {
    choose|w: nat| atlas_width_ok(sizes, w)
}

proof fn lemma_rounded_sqrt_unique(r1: nat, r2: nat, q: nat)
    requires
        is_rounded_sqrt(r1, q),
        is_rounded_sqrt(r2, q),
    ensures
        r1 == r2,
{
    if r1 < r2 {
        assert((2 * r1 + 1) * (2 * r1 + 1) <= (2 * r2 - 1) * (2 * r2 - 1)) by (nonlinear_arith)
            requires r1 < r2;
    } else if r2 < r1 {
        assert((2 * r2 + 1) * (2 * r2 + 1) <= (2 * r1 - 1) * (2 * r1 - 1)) by (nonlinear_arith)
            requires r2 < r1;
    }
}

/// The atlas width of a set of sprites is determined by their sizes.
pub proof fn lemma_atlas_width_unique(sizes: Seq<(u32, u32)>, w: nat)
    requires
        atlas_width_ok(sizes, w),
    ensures
        t_width(sizes) == w,
        forall|v: nat| #[trigger] atlas_width_ok(sizes, v) ==> v == w,
{
    assert forall|v: nat| #[trigger] atlas_width_ok(sizes, v) implies v == w by {
        let r1 = choose|r: nat| heuristic_width_ok(sizes, r) && w == if r < largest_width(sizes) {
            largest_width(sizes) + 2
        } else {
            r
        };
        let r2 = choose|r: nat| heuristic_width_ok(sizes, r) && v == if r < largest_width(sizes) {
            largest_width(sizes) + 2
        } else {
            r
        };
        lemma_rounded_sqrt_unique(r1, r2, (4 * width_sum(sizes) * height_sum(sizes)) / sizes.len());
    }
}


/// The size of a sprite downscaled by `factor`, rounding down.
pub fn scaled_size(w: u32, h: u32, factor: u32) -> (r: (u32, u32))
    requires
        factor >= 1,
    ensures
        r.0 == w / factor,
        r.1 == h / factor,
{
    (w / factor, h / factor)
}

} // verus!
