//! Sheet file naming and the cache-or-build decision. Paths are strings with
//! `/` between components.
use vstd::prelude::*;

use crate::text::str_eq;

verus! {

/// The index of the last `c` in `s`, or -1.
pub open spec fn last_index_of(s: Seq<char>, c: char) -> int
    decreases s.len(),
{
    if s.len() == 0 {
        -1
    } else if s.last() == c {
        s.len() - 1
    } else {
        last_index_of(s.drop_last(), c)
    }
}

/// The directory part of a path, with its trailing `/`.
pub open spec fn dir_of(p: Seq<char>) -> Seq<char> {
    p.take(last_index_of(p, '/') + 1)
}

/// The last component of a path.
pub open spec fn file_name_of(p: Seq<char>) -> Seq<char> {
    p.skip(last_index_of(p, '/') + 1)
}

/// A file name without its extension; a leading dot starts no extension.
pub open spec fn stem_of(name: Seq<char>) -> Seq<char> {
    if last_index_of(name, '.') > 0 {
        name.take(last_index_of(name, '.'))
    } else {
        name
    }
}

/// A path whose last component names a file.
pub open spec fn valid_base(p: Seq<char>) -> bool {
    file_name_of(p).len() > 0 && file_name_of(p) != "."@ && file_name_of(p) != ".."@
}

/// The path of a tier's file: the base's directory and stem, then `suffix`
/// and `ext`.
pub open spec fn tier_path(base: Seq<char>, suffix: Seq<char>, ext: Seq<char>) -> Seq<char> {
    dir_of(base) + stem_of(file_name_of(base)) + suffix + ext
}

/// `name` under the directory `dir`.
pub open spec fn join_of(dir: Seq<char>, name: Seq<char>) -> Seq<char> {
    if dir.len() == 0 {
        name
    } else if dir.last() == '/' {
        dir + name
    } else {
        dir + "/"@ + name
    }
}

/// One tier's files: the atlas image and its manifest.
#[derive(Debug)]
pub struct SheetBundle {
    pub png: String,
    pub plist: String,
}

/// A sprite sheet: its name and its sprites' image files, in order.
#[derive(Debug)]
pub struct SpriteSheet {
    pub name: String,
    pub files: Vec<String>,
}

/// The three tiers of a sheet: reduced (`sd`), half (`hd`) and full (`uhd`).
#[derive(Debug)]
pub struct SheetBundles {
    pub sd: SheetBundle,
    pub hd: SheetBundle,
    pub uhd: SheetBundle,
}

/// `b` holds the files of the tier with `suffix` of the sheet at `base`.
pub open spec fn is_bundle_of(b: SheetBundle, base: Seq<char>, suffix: Seq<char>) -> bool {
    b.png@ == tier_path(base, suffix, ".png"@) && b.plist@ == tier_path(base, suffix, ".plist"@)
}

/// `b` holds the three tiers of the sheet at `base`.
pub open spec fn are_bundles_of(b: SheetBundles, base: Seq<char>) -> bool {
    &&& is_bundle_of(b.sd, base, ""@)
    &&& is_bundle_of(b.hd, base, "-hd"@)
    &&& is_bundle_of(b.uhd, base, "-uhd"@)
}

proof fn lemma_last_index_prefix(s: Seq<char>, c: char, i: int)
    requires
        0 < i <= s.len(),
        s[i - 1] != c,
    ensures
        last_index_of(s.take(i), c) == last_index_of(s.take(i - 1), c),
{
    assert(s.take(i).drop_last() =~= s.take(i - 1));
}

proof fn lemma_last_index_bounds(s: Seq<char>, c: char)
    ensures
        -1 <= last_index_of(s, c) < s.len(),
        last_index_of(s, c) >= 0 ==> s[last_index_of(s, c)] == c,
    decreases s.len(),
{
    if s.len() > 0 && s.last() != c {
        lemma_last_index_bounds(s.drop_last(), c);
    }
}

proof fn lemma_last_index_append(s: Seq<char>, q: Seq<char>, c: char)
    requires
        !q.contains(c),
    ensures
        last_index_of(s + q, c) == last_index_of(s, c),
    decreases q.len(),
{
    if q.len() > 0 {
        assert((s + q).drop_last() =~= s + q.drop_last());
        assert(q.last() == q[q.len() - 1]);
        if q.drop_last().contains(c) {
            let i = choose|i: int| 0 <= i < q.drop_last().len() && q.drop_last()[i] == c;
            assert(q[i] == c);
        }
        lemma_last_index_append(s, q.drop_last(), c);
    } else {
        assert(s + q =~= s);
    }
}

proof fn lemma_no_slash_in_name(p: Seq<char>)
    ensures
        !file_name_of(p).contains('/'),
        !stem_of(file_name_of(p)).contains('/'),
    decreases p.len(),
{
    lemma_last_index_bounds(p, '/');
    let k = last_index_of(p, '/');
    if file_name_of(p).contains('/') {
        let i = choose|i: int| 0 <= i < file_name_of(p).len() && file_name_of(p)[i] == '/';
        lemma_last_after(p, '/', k + 1 + i);
    }
    lemma_last_index_bounds(file_name_of(p), '.');
    if stem_of(file_name_of(p)).contains('/') {
        let i = choose|i: int| 0 <= i < stem_of(file_name_of(p)).len() && stem_of(file_name_of(p))[i] == '/';
        assert(file_name_of(p)[i] == '/');
        assert(file_name_of(p).contains('/'));
    }
}

proof fn lemma_last_after(s: Seq<char>, c: char, j: int)
    requires
        0 <= j < s.len(),
        s[j] == c,
    ensures
        j <= last_index_of(s, c),
    decreases s.len(),
{
    if s.last() != c {
        lemma_last_after(s.drop_last(), c, j);
    }
}

/// The path of a sheet's reduced image names the same sheet: the tiers of
/// `X.png` are those of `X`, so building bundles from the reduced image's
/// path gives back the same six files.
pub proof fn lemma_bundles_idempotent(base: Seq<char>, suffix: Seq<char>, ext: Seq<char>)
    requires
        valid_base(base),
    ensures
        valid_base(tier_path(base, ""@, ".png"@)),
        tier_path(tier_path(base, ""@, ".png"@), suffix, ext) == tier_path(base, suffix, ext),
{
    reveal_strlit("");
    reveal_strlit(".png");
    reveal_strlit("png");
    let d = dir_of(base);
    let n = file_name_of(base);
    let st = stem_of(n);
    let png = ".png"@;
    let p = tier_path(base, ""@, png);
    lemma_last_index_bounds(base, '/');
    lemma_last_index_bounds(n, '.');
    lemma_no_slash_in_name(base);
    assert(st.len() > 0);
    assert(p =~= d + (st + png));
    assert(!png.contains('/')) by {
        if png.contains('/') {
            let i = choose|i: int| 0 <= i < png.len() && png[i] == '/';
        }
    }
    assert(!(st + png).contains('/')) by {
        if (st + png).contains('/') {
            let i = choose|i: int| 0 <= i < (st + png).len() && (st + png)[i] == '/';
            if i < st.len() {
                assert(st[i] == '/');
                assert(st.contains('/'));
            } else {
                assert(png[i - st.len()] == '/');
                assert(png.contains('/'));
            }
        }
    }
    lemma_last_index_append(d, st + png, '/');
    let k = last_index_of(base, '/');
    if k >= 0 {
        assert(d.last() == '/');
        assert(last_index_of(d, '/') == d.len() - 1);
    } else {
        assert(d.len() == 0);
    }
    assert(dir_of(p) =~= d);
    assert(file_name_of(p) =~= st + png);
    let fname = st + png;
    assert(!"png"@.contains('.')) by {
        if "png"@.contains('.') {
            let i = choose|i: int| 0 <= i < "png"@.len() && "png"@[i] == '.';
        }
    }
    assert(fname =~= (st + seq!['.']) + "png"@);
    lemma_last_index_append(st + seq!['.'], "png"@, '.');
    assert(last_index_of(st + seq!['.'], '.') == st.len());
    assert(stem_of(fname) =~= st);
    reveal_strlit(".");
    reveal_strlit("..");
    assert(file_name_of(p).len() >= 5);
    assert(file_name_of(p) != "."@ && file_name_of(p) != ".."@) by {
        assert("."@.len() == 1);
        assert(".."@.len() == 2);
    }
}

/// The position of the last `c` in `s`, if any.
pub fn last_index(s: &str, c: char) -> (r: Option<usize>)
    ensures
        match r {
            Some(i) => i as int == last_index_of(s@, c),
            None => last_index_of(s@, c) == -1,
        },
{
    let mut i: usize = s.unicode_len();
    proof {
        assert(s@.take(s@.len() as int) =~= s@);
    }
    while i > 0
        invariant
            0 <= i <= s@.len(),
            last_index_of(s@, c) == last_index_of(s@.take(i as int), c),
        decreases i,
    {
        if s.get_char(i - 1) == c {
            return Some(i - 1);
        }
        proof {
            lemma_last_index_prefix(s@, c, i as int);
        }
        i = i - 1;
    }
    None
}

/// The position just past the last `c` in `s`, 0 when there is none.
fn after_last(s: &str, c: char) -> (r: usize)
    ensures
        r as int == last_index_of(s@, c) + 1,
        r <= s@.len(),
{
    proof {
        lemma_last_index_bounds(s@, c);
    }
    let n = s.unicode_len();
    match last_index(s, c) {
        Some(i) => {
            assert(i < n);
            i + 1
        },
        None => 0,
    }
}

fn concat4(a: &str, b: &str, c: &str, d: &str) -> (r: String)
    ensures
        r@ == a@ + b@ + c@ + d@,
{
    let mut r = String::from_str(a);
    r.append(b);
    r.append(c);
    r.append(d);
    r
}

impl SheetBundles {
    /// The three tiers' files of the sheet whose reduced image is at `base`
    /// (its extension, if any, is replaced): `X.png`, `X-hd.png`,
    /// `X-uhd.png` and their `.plist` manifests.
    pub fn new(base: &str) -> (r: SheetBundles)
        requires
            valid_base(base@),
        ensures
            are_bundles_of(r, base@),
    {
        proof {
            reveal_strlit("");
            reveal_strlit("-hd");
            reveal_strlit("-uhd");
            reveal_strlit(".png");
            reveal_strlit(".plist");
            lemma_last_index_bounds(base@, '/');
        }
        let n = base.unicode_len();
        let cut = after_last(base, '/');
        let dir = base.substring_char(0, cut);
        let name = base.substring_char(cut, n);
        proof {
            assert(name@ =~= file_name_of(base@));
            assert(dir@ =~= dir_of(base@));
            lemma_last_index_bounds(name@, '.');
        }
        let dot = after_last(name, '.');
        let stem = if dot > 1 { name.substring_char(0, dot - 1) } else { name };
        proof {
            assert(stem@ =~= stem_of(file_name_of(base@)));
        }
        SheetBundles {
            sd: SheetBundle { png: concat4(dir, stem, "", ".png"), plist: concat4(dir, stem, "", ".plist") },
            hd: SheetBundle { png: concat4(dir, stem, "-hd", ".png"), plist: concat4(dir, stem, "-hd", ".plist") },
            uhd: SheetBundle {
                png: concat4(dir, stem, "-uhd", ".png"),
                plist: concat4(dir, stem, "-uhd", ".plist"),
            },
        }
    }
}


/// A path from the root.
pub open spec fn is_absolute(p: Seq<char>) -> bool {
    p.len() > 0 && p[0] == '/'
}

/// A directory path without a trailing `/`.
pub open spec fn trim_slash(w: Seq<char>) -> Seq<char> {
    if w.len() > 0 && w.last() == '/' {
        w.drop_last()
    } else {
        w
    }
}

/// `s` without its leading `/`s.
pub open spec fn skip_slashes(s: Seq<char>) -> Seq<char>
    decreases s.len(),
{
    if s.len() > 0 && s[0] == '/' {
        skip_slashes(s.skip(1))
    } else {
        s
    }
}

/// `p` relative to the directory `w`, when `p` lies under it: what follows
/// `w` and the `/`s after it.
pub open spec fn relative_to(p: Seq<char>, w: Seq<char>) -> Option<Seq<char>> {
    let t = trim_slash(w);
    if p.len() > t.len() && p.take(t.len() as int) == t && p[t.len() as int] == '/' {
        Some(skip_slashes(p.skip(t.len() as int)))
    } else {
        None
    }
}

/// The cache key of a path: relative to the working directory `w` where
/// the path is absolute and lies under `w`, else the path as it is.
pub open spec fn cache_key_of(p: Seq<char>, w: Seq<char>) -> Seq<char> {
    if is_absolute(p) {
        match relative_to(p, w) {
            Some(r) => r,
            None => p,
        }
    } else {
        p
    }
}

proof fn lemma_skip_slash_step(p: Seq<char>, j: int)
    requires
        0 <= j < p.len(),
        p[j] == '/',
    ensures
        skip_slashes(p.skip(j)) == skip_slashes(p.skip(j + 1)),
{
    assert(p.skip(j).skip(1) =~= p.skip(j + 1));
}

impl SheetBundles {
    /// The key under which the cache holds this sheet: the reduced image's
    /// path, made relative to `working_dir` where it is absolute and lies
    /// under it, else the path as it is.
    pub fn cache_name(&self, working_dir: &str) -> (r: String)
        ensures
            r@ == cache_key_of(self.sd.png@, working_dir@),
    {
        let p = self.sd.png.as_str();
        let n = p.unicode_len();
        if n == 0 || p.get_char(0) != '/' {
            return self.sd.png.clone();
        }
        let wl = working_dir.unicode_len();
        let tl = if wl > 0 && working_dir.get_char(wl - 1) == '/' { wl - 1 } else { wl };
        let t = working_dir.substring_char(0, tl);
        proof {
            assert(t@ =~= trim_slash(working_dir@));
        }
        if n > tl && str_eq(p.substring_char(0, tl), t) && p.get_char(tl) == '/' {
            let mut j: usize = tl;
            while j < n && p.get_char(j) == '/'
                invariant
                    n == p@.len(),
                    tl <= j <= n,
                    skip_slashes(p@.skip(tl as int)) == skip_slashes(p@.skip(j as int)),
                decreases n - j,
            {
                proof {
                    lemma_skip_slash_step(p@, j as int);
                }
                j = j + 1;
            }
            let rest = p.substring_char(j, n);
            proof {
                assert(rest@ =~= p@.skip(j as int));
                if j < n {
                    assert(p@.skip(j as int)[0] != '/');
                } else {
                    assert(p@.skip(j as int).len() == 0);
                }
            }
            String::from_str(rest)
        } else {
            self.sd.png.clone()
        }
    }
}

/// The file name `name` under the directory `dir`.
pub fn join(dir: &str, name: &str) -> (r: String)
    ensures
        r@ == join_of(dir@, name@),
{
    proof {
        reveal_strlit("/");
    }
    let n = dir.unicode_len();
    if n == 0 {
        String::from_str(name)
    } else if dir.get_char(n - 1) == '/' {
        String::from_str(dir).concat(name)
    } else {
        String::from_str(dir).concat("/").concat(name)
    }
}

/// The last component of `p`.
pub fn file_name(p: &str) -> (r: &str)
    ensures
        r@ == file_name_of(p@),
{
    proof {
        lemma_last_index_bounds(p@, '/');
    }
    let cut = after_last(p, '/');
    let r = p.substring_char(cut, p.unicode_len());
    proof {
        assert(r@ =~= file_name_of(p@));
    }
    r
}

/// Whether `p` names a file in its last component.
pub fn is_valid_base(p: &str) -> (r: bool)
    ensures
        r == valid_base(p@),
{
    proof {
        reveal_strlit(".");
        reveal_strlit("..");
    }
    let name = file_name(p);
    name.unicode_len() > 0 && !str_eq(name, ".") && !str_eq(name, "..")
}

/// Copy the cache entry `entry` to `dest`.
#[derive(Debug)]
pub struct Extraction {
    pub entry: String,
    pub dest: String,
}

/// The copy of the cache entry `entry` to the file `dest`.
pub fn extract_from_cache(entry: &str, dest: &str) -> (r: Extraction)
    ensures
        r.entry@ == entry@,
        r.dest@ == dest@,
{
    Extraction { entry: String::from_str(entry), dest: String::from_str(dest) }
}

/// Build one tier into `bundle`, its sprites downscaled by `factor`.
#[derive(Debug)]
pub struct TierJob {
    pub bundle: SheetBundle,
    pub factor: u32,
}

/// What fetching a sheet takes: extracting cached files, or building the
/// tiers.
#[derive(Debug)]
pub enum SheetAction {
    Extract(Vec<Extraction>),
    Build(Vec<TierJob>),
}

/// A sheet's files and the work that produces them.
#[derive(Debug)]
pub struct SheetPlan {
    pub bundles: SheetBundles,
    pub action: SheetAction,
}

/// Why a sheet cannot be fetched.
#[derive(PartialEq, Eq, Structural, Clone, Copy, Debug)]
pub enum SheetError {
    /// The sheet names no sprites.
    InvalidInput,
    /// The cache answered with a path that names no file.
    CacheError,
}

/// The six files of the sheet at `base`, tier by tier, image before
/// manifest.
pub open spec fn tier_paths(base: Seq<char>) -> Seq<Seq<char>> {
    seq![
        tier_path(base, ""@, ".png"@),
        tier_path(base, ""@, ".plist"@),
        tier_path(base, "-hd"@, ".png"@),
        tier_path(base, "-hd"@, ".plist"@),
        tier_path(base, "-uhd"@, ".png"@),
        tier_path(base, "-uhd"@, ".plist"@),
    ]
}

/// `v` copies, in order, each of the six cached files of the sheet at
/// `cached` to the same tier's file of the sheet at `fresh`.
pub open spec fn extracts_all(v: Seq<Extraction>, cached: Seq<char>, fresh: Seq<char>) -> bool {
    v.len() == 6 && forall|i: int| 0 <= i < 6 ==> {
        &&& (#[trigger] v[i]).entry@ == tier_paths(cached)[i]
        &&& v[i].dest@ == tier_paths(fresh)[i]
    }
}

/// `v` builds the reduced, half and full tiers of `b`, in that order, with
/// downscale factors 4, 2 and 1.
pub open spec fn builds_all(v: Seq<TierJob>, b: SheetBundles) -> bool {
    &&& v.len() == 3
    &&& v[0].factor == 4 && v[0].bundle.png@ == b.sd.png@ && v[0].bundle.plist@ == b.sd.plist@
    &&& v[1].factor == 2 && v[1].bundle.png@ == b.hd.png@ && v[1].bundle.plist@ == b.hd.plist@
    &&& v[2].factor == 1 && v[2].bundle.png@ == b.uhd.png@ && v[2].bundle.plist@ == b.uhd.plist@
}

/// Where a sheet built from scratch goes: `<working_dir>/<name>.png`.
pub open spec fn fresh_base(sheet_name: Seq<char>, wd: Seq<char>) -> Seq<char> {
    join_of(wd, sheet_name + ".png"@)
}

fn copy_bundle(b: &SheetBundle) -> (r: SheetBundle)
    ensures
        r.png@ == b.png@,
        r.plist@ == b.plist@,
{
    SheetBundle { png: b.png.clone(), plist: b.plist.clone() }
}

/// Decides how a sheet's three tiers are obtained. `cached` is the path
/// under which the cache found the sheet: on a hit the six cached files are
/// copied into `working_dir` under the names a fresh build would give them,
/// and nothing is built; on a miss the reduced, half and full tiers are
/// built, in that order, under `working_dir`. Either way the result names the
/// files in `working_dir`.
pub fn get_spritesheet_bundles(sheet: &SpriteSheet, working_dir: &str, cached: Option<String>) -> (r: Result<SheetPlan, SheetError>)
    ensures
        cached is Some ==> {
            let p = cached->Some_0@;
            let base = fresh_base(sheet.name@, working_dir@);
            &&& (r is Ok <==> valid_base(p) && valid_base(base))
            &&& (!valid_base(p) ==> r == Err::<SheetPlan, SheetError>(SheetError::CacheError))
            &&& (valid_base(p) && !valid_base(base) ==> r == Err::<SheetPlan, SheetError>(SheetError::InvalidInput))
            &&& (r is Ok ==> {
                let plan = r->Ok_0;
                &&& are_bundles_of(plan.bundles, base)
                &&& plan.action is Extract
                &&& extracts_all(plan.action->Extract_0@, p, base)
            })
        },
        cached is None ==> {
            let base = fresh_base(sheet.name@, working_dir@);
            &&& (r is Ok <==> sheet.files@.len() > 0 && valid_base(base))
            &&& (r is Err ==> r->Err_0 == SheetError::InvalidInput)
            &&& (r is Ok ==> {
                let plan = r->Ok_0;
                &&& are_bundles_of(plan.bundles, base)
                &&& plan.action is Build
                &&& builds_all(plan.action->Build_0@, plan.bundles)
            })
        },
{
    proof {
        reveal_strlit("");
        reveal_strlit("/");
        reveal_strlit("-hd");
        reveal_strlit("-uhd");
        reveal_strlit(".png");
        reveal_strlit(".plist");
    }
    let name = String::from_str(sheet.name.as_str()).concat(".png");
    let base = join(working_dir, name.as_str());
    match cached {
        Some(p) => {
            if !is_valid_base(p.as_str()) {
                return Err(SheetError::CacheError);
            }
            if !is_valid_base(base.as_str()) {
                return Err(SheetError::InvalidInput);
            }
            let from = SheetBundles::new(p.as_str());
            let bundles = SheetBundles::new(base.as_str());
            let mut v: Vec<Extraction> = Vec::new();
            v.push(extract_from_cache(from.sd.png.as_str(), bundles.sd.png.as_str()));
            v.push(extract_from_cache(from.sd.plist.as_str(), bundles.sd.plist.as_str()));
            v.push(extract_from_cache(from.hd.png.as_str(), bundles.hd.png.as_str()));
            v.push(extract_from_cache(from.hd.plist.as_str(), bundles.hd.plist.as_str()));
            v.push(extract_from_cache(from.uhd.png.as_str(), bundles.uhd.png.as_str()));
            v.push(extract_from_cache(from.uhd.plist.as_str(), bundles.uhd.plist.as_str()));
            Ok(SheetPlan { bundles, action: SheetAction::Extract(v) })
        },
        None => {
            if sheet.files.len() == 0 {
                return Err(SheetError::InvalidInput);
            }
            if !is_valid_base(base.as_str()) {
                return Err(SheetError::InvalidInput);
            }
            let bundles = SheetBundles::new(base.as_str());
            let jobs = vec![
                TierJob { bundle: copy_bundle(&bundles.sd), factor: 4 },
                TierJob { bundle: copy_bundle(&bundles.hd), factor: 2 },
                TierJob { bundle: copy_bundle(&bundles.uhd), factor: 1 },
            ];
            Ok(SheetPlan { bundles, action: SheetAction::Build(jobs) })
        },
    }
}

} // verus!
