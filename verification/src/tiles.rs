//! Map tile proxy routing: which upstream serves a `mvtile://` path, and
//! where a tile is cached on disk.
//!
//! Supported providers (path after `mvtile://`):
//! - `openfreemap/styles/{name}`            — JSON style document.
//! - `openfreemap/tiles/{z}/{x}/{y}.pbf`    — vector tile.
//! - `openfreemap-fonts/{stack}/{range}.pbf` — SDF glyphs for labels.
//! - `openfreemap-sprite/{name}.{json|png}` — icon sprite.
//! - `esri/{z}/{y}/{x}`                     — raster satellite tile.

use crate::paths::{push_segment, spec_push};
use crate::text::{
    chars_of, concat, ends_with_lit, find_seq, lemma_find, slice_to_vec, spec_find, string_of,
    starts_with_lit,
};
use vstd::prelude::*;

verus! {

/// Size cap of the tile cache, in bytes.
pub const MAX_CACHE_BYTES: u64 = 524288000;

/// Name of the tile cache directory under the app cache directory.
pub const CACHE_DIR_NAME: &'static str = "tile-cache";

/// `n` with every trailing `.json` removed (`str::trim_end_matches`).
pub open spec fn spec_trim_json(n: Seq<char>) -> Seq<char>
    decreases n.len(),
{
    if ".json"@.len() > 0 && ".json"@.is_suffix_of(n) {
        spec_trim_json(n.subrange(0, n.len() - ".json"@.len()))
    } else {
        n
    }
}

/// The rest of `path` after `prefix`.
pub open spec fn spec_after(path: Seq<char>, prefix: Seq<char>) -> Seq<char> {
    path.subrange(prefix.len() as int, path.len() as int)
}

/// The upstream URL and content type of a tile path, if a provider serves it.
pub open spec fn spec_upstream_for(path: Seq<char>) -> Option<(Seq<char>, Seq<char>)> {
    if "openfreemap/styles/"@.is_prefix_of(path) {
        Some(
            (
                "https://tiles.openfreemap.org/styles/"@ + spec_trim_json(
                    spec_after(path, "openfreemap/styles/"@),
                ),
                "application/json"@,
            ),
        )
    } else if "openfreemap/tiles/"@.is_prefix_of(path) {
        Some(
            (
                "https://tiles.openfreemap.org/planet/"@ + spec_after(path, "openfreemap/tiles/"@),
                "application/x-protobuf"@,
            ),
        )
    } else if "openfreemap-fonts/"@.is_prefix_of(path) {
        Some(
            (
                "https://tiles.openfreemap.org/fonts/"@ + spec_after(path, "openfreemap-fonts/"@),
                "application/x-protobuf"@,
            ),
        )
    } else if "openfreemap-sprite/"@.is_prefix_of(path) {
        let suffix = spec_after(path, "openfreemap-sprite/"@);
        Some(
            (
                "https://tiles.openfreemap.org/sprites/ofm_f384/"@ + suffix,
                if ".png"@.is_suffix_of(suffix) {
                    "image/png"@
                } else {
                    "application/json"@
                },
            ),
        )
    } else if "esri/"@.is_prefix_of(path) {
        Some(
            (
                "https://server.arcgisonline.com/ArcGIS/rest/services/World_Imagery/MapServer/tile/"@
                    + spec_after(path, "esri/"@),
                "image/jpeg"@,
            ),
        )
    } else {
        None
    }
}

/// Law: each tile route maps its suffix, whatever it is, onto the same
/// suffix at its provider: `openfreemap/tiles/<s>` to the planet tiles,
/// `openfreemap-fonts/<s>` to the fonts (both protobuf),
/// `openfreemap-sprite/<s>` to the sprites (PNG when `s` ends in `.png`,
/// else JSON), `esri/<s>` to the ArcGIS imagery (JPEG), and
/// `openfreemap/styles/<s>` to the style of that name, without trailing
/// `.json` (JSON).
pub proof fn lemma_tile_routes(s: Seq<char>)
    ensures
        spec_upstream_for("openfreemap/tiles/"@ + s) == Some(
            ("https://tiles.openfreemap.org/planet/"@ + s, "application/x-protobuf"@),
        ),
        spec_upstream_for("openfreemap-fonts/"@ + s) == Some(
            ("https://tiles.openfreemap.org/fonts/"@ + s, "application/x-protobuf"@),
        ),
        spec_upstream_for("openfreemap-sprite/"@ + s) == Some(
            (
                "https://tiles.openfreemap.org/sprites/ofm_f384/"@ + s,
                if ".png"@.is_suffix_of(s) {
                    "image/png"@
                } else {
                    "application/json"@
                },
            ),
        ),
        spec_upstream_for("esri/"@ + s) == Some(
            (
                "https://server.arcgisonline.com/ArcGIS/rest/services/World_Imagery/MapServer/tile/"@ + s,
                "image/jpeg"@,
            ),
        ),
        !(".json"@.is_suffix_of(s)) ==> spec_upstream_for("openfreemap/styles/"@ + s) == Some(
            ("https://tiles.openfreemap.org/styles/"@ + s, "application/json"@),
        ),
        spec_upstream_for("openfreemap/styles/"@ + s + ".json"@) == spec_upstream_for("openfreemap/styles/"@ + s),
{
    reveal_strlit("openfreemap/styles/");
    reveal_strlit("openfreemap/tiles/");
    reveal_strlit("openfreemap-fonts/");
    reveal_strlit("openfreemap-sprite/");
    reveal_strlit("esri/");
    reveal_strlit(".json");
    let st = "openfreemap/styles/"@;
    let ti = "openfreemap/tiles/"@;
    let fo = "openfreemap-fonts/"@;
    let sp = "openfreemap-sprite/"@;
    let es = "esri/"@;
    // The routes part at a character of their prefixes.
    assert(!st.is_prefix_of(ti + s)) by { assert((ti + s)[12] == 't'); if st.is_prefix_of(ti + s) { assert(st[12] == (ti + s)[12]); } }
    assert(ti.is_prefix_of(ti + s)) by { assert((ti + s).subrange(0, ti.len() as int) =~= ti); }
    assert((ti + s).subrange(ti.len() as int, (ti + s).len() as int) =~= s);
    assert(!st.is_prefix_of(fo + s)) by { assert((fo + s)[11] == '-'); if st.is_prefix_of(fo + s) { assert(st[11] == (fo + s)[11]); } }
    assert(!ti.is_prefix_of(fo + s)) by { assert((fo + s)[11] == '-'); if ti.is_prefix_of(fo + s) { assert(ti[11] == (fo + s)[11]); } }
    assert(fo.is_prefix_of(fo + s)) by { assert((fo + s).subrange(0, fo.len() as int) =~= fo); }
    assert((fo + s).subrange(fo.len() as int, (fo + s).len() as int) =~= s);
    assert(!st.is_prefix_of(sp + s)) by { assert((sp + s)[11] == '-'); if st.is_prefix_of(sp + s) { assert(st[11] == (sp + s)[11]); } }
    assert(!ti.is_prefix_of(sp + s)) by { assert((sp + s)[11] == '-'); if ti.is_prefix_of(sp + s) { assert(ti[11] == (sp + s)[11]); } }
    assert(!fo.is_prefix_of(sp + s)) by { assert((sp + s)[12] == 's'); if fo.is_prefix_of(sp + s) { assert(fo[12] == (sp + s)[12]); } }
    assert(sp.is_prefix_of(sp + s)) by { assert((sp + s).subrange(0, sp.len() as int) =~= sp); }
    assert((sp + s).subrange(sp.len() as int, (sp + s).len() as int) =~= s);
    assert(!st.is_prefix_of(es + s)) by { assert((es + s)[0] == 'e'); if st.is_prefix_of(es + s) { assert(st[0] == (es + s)[0]); } }
    assert(!ti.is_prefix_of(es + s)) by { assert((es + s)[0] == 'e'); if ti.is_prefix_of(es + s) { assert(ti[0] == (es + s)[0]); } }
    assert(!fo.is_prefix_of(es + s)) by { assert((es + s)[0] == 'e'); if fo.is_prefix_of(es + s) { assert(fo[0] == (es + s)[0]); } }
    assert(!sp.is_prefix_of(es + s)) by { assert((es + s)[0] == 'e'); if sp.is_prefix_of(es + s) { assert(sp[0] == (es + s)[0]); } }
    assert(es.is_prefix_of(es + s)) by { assert((es + s).subrange(0, es.len() as int) =~= es); }
    assert((es + s).subrange(es.len() as int, (es + s).len() as int) =~= s);
    assert(st.is_prefix_of(st + s)) by { assert((st + s).subrange(0, st.len() as int) =~= st); }
    assert((st + s).subrange(st.len() as int, (st + s).len() as int) =~= s);
    let sj = st + s + ".json"@;
    assert(st.is_prefix_of(sj)) by { assert(sj.subrange(0, st.len() as int) =~= st); }
    assert(sj.subrange(st.len() as int, sj.len() as int) =~= s + ".json"@);
    assert(".json"@.is_suffix_of(s + ".json"@)) by {
        assert((s + ".json"@).subrange((s + ".json"@).len() - 5, (s + ".json"@).len() as int) =~= ".json"@);
    }
    assert((s + ".json"@).subrange(0, (s + ".json"@).len() - 5) =~= s);
}

/// `lit` followed by `rest`, as a string.
fn lit_plus(lit: &str, rest: &[char]) -> (s: String)
    ensures
        s@ == lit@ + rest@,
{
    let l = chars_of(lit);
    string_of(&concat(&l, rest))
}

/// The part of `p` after the literal `prefix`, if `p` starts with it.
fn strip_prefix_lit(p: &[char], prefix: &str) -> (r: Option<Vec<char>>)
    ensures
        match r {
            Some(rest) => prefix@.is_prefix_of(p@) && rest@ == spec_after(p@, prefix@),
            None => !prefix@.is_prefix_of(p@),
        },
{
    if starts_with_lit(p, prefix) {
        let l = chars_of(prefix);
        Some(slice_to_vec(p, l.len(), p.len()))
    } else {
        None
    }
}

fn trim_json(n: &[char]) -> (t: Vec<char>)
    ensures
        t@ == spec_trim_json(n@),
{
    proof { reveal_strlit(".json"); }
    let mut t = slice_to_vec(n, 0, n.len());
    assert(n@.subrange(0, n@.len() as int) =~= n@);
    while ends_with_lit(&t, ".json")
        invariant
            spec_trim_json(t@) == spec_trim_json(n@),
            ".json"@.len() == 5,
        decreases t@.len(),
    {
        assert(".json"@.is_suffix_of(t@));
        let l = t.len() - 5;
        t = slice_to_vec(&t, 0, l);
    }
    t
}

/// The upstream URL and content type of a tile path.
pub fn upstream_for(path: &str) -> (r: Option<(String, &'static str)>)
    ensures
        match r {
            Some((url, mime)) => spec_upstream_for(path@) == Some((url@, mime@)),
            None => spec_upstream_for(path@) is None,
        },
{
    let p = chars_of(path);
    if let Some(name) = strip_prefix_lit(&p, "openfreemap/styles/") {
        let t = trim_json(&name);
        return Some((lit_plus("https://tiles.openfreemap.org/styles/", &t), "application/json"));
    }
    if let Some(suffix) = strip_prefix_lit(&p, "openfreemap/tiles/") {
        return Some(
            (lit_plus("https://tiles.openfreemap.org/planet/", &suffix), "application/x-protobuf"),
        );
    }
    if let Some(suffix) = strip_prefix_lit(&p, "openfreemap-fonts/") {
        return Some(
            (lit_plus("https://tiles.openfreemap.org/fonts/", &suffix), "application/x-protobuf"),
        );
    }
    if let Some(suffix) = strip_prefix_lit(&p, "openfreemap-sprite/") {
        let mime = if ends_with_lit(&suffix, ".png") {
            "image/png"
        } else {
            "application/json"
        };
        return Some((lit_plus("https://tiles.openfreemap.org/sprites/ofm_f384/", &suffix), mime));
    }
    if let Some(suffix) = strip_prefix_lit(&p, "esri/") {
        return Some(
            (
                lit_plus(
                    "https://server.arcgisonline.com/ArcGIS/rest/services/World_Imagery/MapServer/tile/",
                    &suffix,
                ),
                "image/jpeg",
            ),
        );
    }
    None
}

// ------------------------------------------------------------- cache path

/// The segments of `s` between `/` separators, empty ones included
/// (`str::split('/')`).
pub open spec fn spec_split_slash(s: Seq<char>) -> Seq<Seq<char>>
    decreases s.len(),
{
    let k = spec_find(s, seq!['/']);
    if k < 0 || k >= s.len() {
        seq![s]
    } else {
        seq![s.subrange(0, k)] + spec_split_slash(s.subrange(k + 1, s.len() as int))
    }
}

/// `base` with each segment pushed onto it in turn.
pub open spec fn spec_push_all(base: Seq<char>, segs: Seq<Seq<char>>) -> Seq<char>
    decreases segs.len(),
{
    if segs.len() == 0 {
        base
    } else {
        spec_push(spec_push_all(base, segs.drop_last()), segs.last())
    }
}

/// Where the tile with cache key `key` lives under `root`: one path
/// component per `/`-separated segment of the key.
pub open spec fn spec_cache_path(root: Seq<char>, key: Seq<char>) -> Seq<char> {
    spec_push_all(root, spec_split_slash(key))
}

fn split_slash(s: &[char]) -> (segs: Vec<Vec<char>>)
    ensures
        segs@.map_values(|v: Vec<char>| v@) == spec_split_slash(s@),
{
    let slash: Vec<char> = vec!['/'];
    assert(slash@ =~= seq!['/']);
    let mut segs: Vec<Vec<char>> = Vec::new();
    let mut rest = slice_to_vec(s, 0, s.len());
    assert(s@.subrange(0, s@.len() as int) =~= s@);
    assert(segs@.map_values(|v: Vec<char>| v@) + spec_split_slash(rest@) =~= spec_split_slash(s@));
    loop
        invariant_except_break
            slash@ == seq!['/'],
            segs@.map_values(|v: Vec<char>| v@) + spec_split_slash(rest@) == spec_split_slash(s@),
        ensures
            segs@.map_values(|v: Vec<char>| v@) == spec_split_slash(s@),
        decreases rest@.len(),
    {
        proof { lemma_find(rest@, slash@); }
        let ghost before = segs@.map_values(|v: Vec<char>| v@);
        match find_seq(&rest, &slash) {
            Some(k) => {
                if k >= rest.len() {
                    let ghost r = rest@;
                    segs.push(rest);
                    assert(segs@.map_values(|v: Vec<char>| v@) =~= before + spec_split_slash(r));
                    break;
                }
                let head = slice_to_vec(&rest, 0, k);
                let tail = slice_to_vec(&rest, k + 1, rest.len());
                segs.push(head);
                assert(segs@.map_values(|v: Vec<char>| v@) + spec_split_slash(tail@) =~= before + (
                seq![head@] + spec_split_slash(tail@)));
                rest = tail;
            },
            None => {
                let ghost r = rest@;
                segs.push(rest);
                assert(segs@.map_values(|v: Vec<char>| v@) =~= before + spec_split_slash(r));
                break;
            },
        }
    }
    segs
}

/// The on-disk path of the tile with cache key `key` under `root`.
pub fn cache_path(root: &str, key: &str) -> (p: String)
    ensures
        p@ == spec_cache_path(root@, key@),
{
    let k = chars_of(key);
    let segs = split_slash(&k);
    let ghost sv = segs@.map_values(|v: Vec<char>| v@);
    let mut p = string_of(&chars_of(root));
    let mut i: usize = 0;
    while i < segs.len()
        invariant
            i <= segs@.len(),
            sv == segs@.map_values(|v: Vec<char>| v@),
            p@ == spec_push_all(root@, sv.subrange(0, i as int)),
        decreases segs@.len() - i,
    {
        let seg = string_of(&segs[i]);
        assert(sv.subrange(0, i + 1).drop_last() =~= sv.subrange(0, i as int));
        assert(sv.subrange(0, i + 1).last() == segs@[i as int]@);
        p = push_segment(p.as_str(), seg.as_str());
        i = i + 1;
    }
    assert(sv.subrange(0, sv.len() as int) =~= sv);
    p
}

// ------------------------------------------------------------------ keys

/// `s` without its leading `/` characters (`str::trim_start_matches`).
pub open spec fn spec_trim_leading_slashes(s: Seq<char>) -> Seq<char>
    decreases s.len(),
{
    if s.len() > 0 && s[0] == '/' {
        spec_trim_leading_slashes(s.drop_first())
    } else {
        s
    }
}

/// The cache key of a `mvtile://host/path` request: the host, followed by
/// `/` and the path without its leading slashes when there is one.
pub open spec fn spec_tile_key(host: Seq<char>, path: Seq<char>) -> Seq<char> {
    let p = spec_trim_leading_slashes(path);
    if p.len() == 0 {
        host
    } else {
        host + seq!['/'] + p
    }
}

proof fn lemma_trim_leading_slashes(n: nat, p: Seq<char>)
    requires
        p.len() == 0 || p[0] != '/',
    ensures
        spec_trim_leading_slashes(Seq::new(n, |i: int| '/') + p) == p,
    decreases n,
{
    if n > 0 {
        let s = Seq::new(n, |i: int| '/') + p;
        assert(s[0] == '/');
        assert(s.drop_first() =~= Seq::new((n - 1) as nat, |i: int| '/') + p);
        lemma_trim_leading_slashes((n - 1) as nat, p);
    } else {
        assert(Seq::new(0, |i: int| '/') + p =~= p);
    }
}

/// Law: the cache key of a request on `host` whose path is any number of
/// slashes followed by `p` (not itself starting with a slash) is `host/p`,
/// or just `host` when `p` is empty.
pub proof fn lemma_tile_key_shape(host: Seq<char>, n: nat, p: Seq<char>)
    requires
        p.len() == 0 || p[0] != '/',
    ensures
        spec_tile_key(host, Seq::new(n, |i: int| '/') + p) == if p.len() == 0 {
            host
        } else {
            host + seq!['/'] + p
        },
{
    lemma_trim_leading_slashes(n, p);
}

/// The cache key (and provider path) of a tile request.
pub fn tile_key(host: &str, path: &str) -> (k: String)
    ensures
        k@ == spec_tile_key(host@, path@),
{
    let p = chars_of(path);
    let mut a: usize = 0;
    assert(p@.subrange(0, p@.len() as int) =~= p@);
    while a < p.len() && p[a] == '/'
        invariant
            a <= p@.len(),
            p@ == path@,
            spec_trim_leading_slashes(path@) == spec_trim_leading_slashes(p@.subrange(a as int, p@.len() as int)),
        decreases p@.len() - a,
    {
        assert(p@.subrange(a as int, p@.len() as int).drop_first() =~= p@.subrange(a + 1, p@.len() as int));
        a = a + 1;
    }
    let rest = slice_to_vec(&p, a, p.len());
    if rest.len() == 0 {
        host.to_owned()
    } else {
        let h = chars_of(host);
        let slash: Vec<char> = vec!['/'];
        let hs = concat(&h, &slash);
        assert(hs@ =~= host@ + seq!['/']);
        string_of(&concat(&hs, &rest))
    }
}

// -------------------------------------------------------------- eviction

/// The size the cache is trimmed down to once it outgrows its cap: 90% of
/// the cap, so eviction does not run on every insert.
pub const EVICTION_TARGET_BYTES: u64 = 471859200;

/// The order in which cached tiles are evicted, given their modification
/// times: the positions of the oldest first, ties in the order given.
pub open spec fn spec_eviction_order_ok(mtimes: Seq<i128>, order: Seq<usize>) -> bool {
    &&& order.len() == mtimes.len()
    &&& forall|i: int| 0 <= i < order.len() ==> #[trigger] order[i] < mtimes.len()
    &&& forall|i: int, j: int| 0 <= i < j < order.len() ==> order[i] != order[j]
    &&& forall|i: int, j: int|
        0 <= i < j < order.len() ==> mtimes[order[i] as int] < mtimes[order[j] as int] || (
        mtimes[order[i] as int] == mtimes[order[j] as int] && order[i] < order[j])
}

/// Positions of the cached tiles, oldest first (a stable sort by time).
pub fn eviction_order(mtimes: &[i128]) -> (order: Vec<usize>)
    ensures
        spec_eviction_order_ok(mtimes@, order@),
{
    let mut order: Vec<usize> = Vec::new();
    let mut i: usize = 0;
    while i < mtimes.len()
        invariant
            i <= mtimes@.len(),
            order@.len() == i,
            forall|a: int| 0 <= a < order@.len() ==> #[trigger] order@[a] < i,
            forall|a: int, b: int| 0 <= a < b < order@.len() ==> order@[a] != order@[b],
            forall|a: int, b: int|
                0 <= a < b < order@.len() ==> mtimes@[order@[a] as int] < mtimes@[order@[b] as int] || (
                mtimes@[order@[a] as int] == mtimes@[order@[b] as int] && order@[a] < order@[b]),
        decreases mtimes@.len() - i,
    {
        let t = mtimes[i];
        let mut p: usize = 0;
        while p < order.len() && mtimes[order[p]] <= t
            invariant
                p <= order@.len(),
                i < mtimes@.len(),
                forall|a: int| 0 <= a < order@.len() ==> #[trigger] order@[a] < i,
                forall|a: int| 0 <= a < p ==> mtimes@[#[trigger] order@[a] as int] <= t,
            decreases order@.len() - p,
        {
            p = p + 1;
        }
        let ghost old_o = order@;
        order.insert(p, i);
        proof {
            assert forall|a: int| 0 <= a < order@.len() implies #[trigger] order@[a] < i + 1 by {
                if a < p {
                    assert(order@[a] == old_o[a]);
                } else if a > p {
                    assert(order@[a] == old_o[a - 1]);
                }
            }
            assert forall|a: int, b: int| 0 <= a < b < order@.len() implies order@[a] != order@[b] by {
                if a != p && b != p {
                    let a0 = if a < p { a } else { a - 1 };
                    let b0 = if b < p { b } else { b - 1 };
                    assert(order@[a] == old_o[a0] && order@[b] == old_o[b0]);
                } else if a == p {
                    assert(order@[b] == old_o[b - 1]);
                } else {
                    assert(order@[a] == old_o[a]);
                }
            }
            assert forall|a: int, b: int| 0 <= a < b < order@.len() implies mtimes@[order@[a] as int] < mtimes@[order@[b] as int] || (
                mtimes@[order@[a] as int] == mtimes@[order@[b] as int] && order@[a] < order@[b]) by {
                if b < p {
                    assert(order@[a] == old_o[a] && order@[b] == old_o[b]);
                } else if b == p {
                    assert(order@[a] == old_o[a]);
                } else if a < p {
                    assert(order@[a] == old_o[a] && order@[b] == old_o[b - 1]);
                } else if a == p {
                    assert(order@[b] == old_o[b - 1]);
                    assert(mtimes@[old_o[p as int] as int] > t);
                    if b - 1 > p {
                        assert(mtimes@[old_o[p as int] as int] <= mtimes@[old_o[b - 1] as int]);
                    }
                } else {
                    assert(order@[a] == old_o[a - 1] && order@[b] == old_o[b - 1]);
                }
            }
        }
        i = i + 1;
    }
    order
}

/// An eviction pass over a cache that holds `total` bytes.
#[derive(Debug, Clone, Copy, PartialEq, Eq)]
pub struct Eviction {
    pub total: u64,
}

impl Eviction {
    /// The pass for a cache of `total` bytes, if it is over its cap.
    pub fn start(total: u64) -> (e: Option<Eviction>)
        ensures
            match e {
                Some(ev) => total > MAX_CACHE_BYTES && ev.total == total,
                None => total <= MAX_CACHE_BYTES,
            },
    {
        if total <= MAX_CACHE_BYTES {
            None
        } else {
            Some(Eviction { total })
        }
    }

    /// Whether the pass should evict another tile.
    pub fn wants_more(&self) -> (b: bool)
        ensures
            b == (self.total > EVICTION_TARGET_BYTES),
    {
        self.total > EVICTION_TARGET_BYTES
    }

    /// A tile of `size` bytes was removed.
    pub fn removed(&mut self, size: u64)
        ensures
            final(self).total == (if old(self).total >= size {
                old(self).total - size
            } else {
                0
            }),
    {
        self.total = self.total.saturating_sub(size);
    }
}

/// Law: the tile cache holds at most 500 MiB, and once over it is trimmed
/// to nine tenths of that; it lives in `tile-cache`.
pub proof fn lemma_cache_limits()
    ensures
        MAX_CACHE_BYTES == 500 * 1024 * 1024,
        EVICTION_TARGET_BYTES * 10 == MAX_CACHE_BYTES * 9,
        CACHE_DIR_NAME@ == "tile-cache"@,
{
}

/// Law: a cache key is cut at every `/`: a key without one is a single
/// segment, and a segment without `/` followed by `/` and the rest is that
/// segment followed by the segments of the rest.
pub proof fn lemma_split_slash_rule(a: Seq<char>, b: Seq<char>)
    requires
        forall|i: int| 0 <= i < a.len() ==> a[i] != '/',
    ensures
        spec_split_slash(a) == seq![a],
        spec_split_slash(a + seq!['/'] + b) == seq![a] + spec_split_slash(b),
        spec_cache_path(a, seq![]) == spec_push(a, seq![]),
{
    crate::text::lemma_find(a, seq!['/']);
    assert forall|k: int| 0 <= k <= a.len() implies !crate::text::spec_occurs_at(a, seq!['/'], k) by {
        if crate::text::spec_occurs_at(a, seq!['/'], k) {
            assert(a.subrange(k, k + 1)[0] == a[k]);
        }
    }
    crate::text::lemma_find_none(a, seq!['/']);
    let s = a + seq!['/'] + b;
    assert(crate::text::spec_occurs_at(s, seq!['/'], a.len() as int)) by {
        assert(s.subrange(a.len() as int, a.len() as int + 1) =~= seq!['/']);
    }
    assert forall|j: int| 0 <= j < a.len() implies !crate::text::spec_occurs_at(s, seq!['/'], j) by {
        if crate::text::spec_occurs_at(s, seq!['/'], j) {
            assert(s.subrange(j, j + 1)[0] == s[j]);
            assert(s[j] == a[j]);
        }
    }
    crate::text::lemma_find_is_first(s, seq!['/'], a.len() as int);
    assert(s.subrange(0, a.len() as int) =~= a);
    assert(s.subrange(a.len() as int + 1, s.len() as int) =~= b);
    let e = Seq::<char>::empty();
    crate::text::lemma_find(e, seq!['/']);
    assert(spec_split_slash(e) == seq![e]);
    assert(spec_push_all(a, seq![e]) == spec_push(spec_push_all(a, seq![e].drop_last()), e));
    assert(seq![e].drop_last() =~= Seq::<Seq<char>>::empty());
}

} // verus!
