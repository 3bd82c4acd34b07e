//! Pair detection across a set of file paths.
//!
//! * Live Photos: a still (`.heic`, `.heif`, `.jpg`, `.jpeg`) and a clip
//!   (`.mov`, `.mp4`) with the same directory and stem, the stem starting
//!   with `IMG_` or `img_`.
//! * RAW+JPEG: a RAW file and a JPEG with the same directory and stem.
//! * Motion Photos: JPEGs whose tail carries a Motion Photo trailer.
//! * Bursts: `IMG_<digits>` / `IMG_E<digits>` files grouped by their digits,
//!   kept when the group has an `IMG_E` member or at least three members.

use crate::paths::{ext_lower, file_stem_of, parent_of, spec_ext_lower, spec_file_stem, spec_parent};
use crate::text::{chars_eq, chars_of, eq_lit};
use vstd::prelude::*;

verus! {

/// A Live Photo: a still and its motion clip.
#[derive(Debug, Clone, PartialEq, Eq)]
pub struct LivePair {
    pub still: String,
    pub video: String,
}

/// A RAW file and the JPEG shot with it.
#[derive(Debug, Clone, PartialEq, Eq)]
pub struct RawJpegPair {
    pub raw: String,
    pub jpeg: String,
}

/// Files of one burst, under the burst's number.
#[derive(Debug, Clone, PartialEq, Eq)]
pub struct BurstGroup {
    pub key: String,
    pub members: Vec<String>,
}

/// Flags and groups discovered from a set of candidate paths.
#[derive(Debug, Clone)]
pub struct PairReport {
    /// Live Photo pairs.
    pub live: Vec<LivePair>,
    /// Paths that carry an embedded Motion Photo video.
    pub motion: Vec<String>,
    /// RAW+JPEG same-basename pairs.
    pub raw_jpeg: Vec<RawJpegPair>,
    /// Bursts, ordered by their key.
    pub bursts: Vec<BurstGroup>,
}

// ---------------------------------------------------------------- extensions

/// Whether a lowercased extension names a still image that can carry a Live
/// Photo.
pub open spec fn spec_is_still_ext(e: Seq<char>) -> bool {
    e == "heic"@ || e == "heif"@ || e == "jpg"@ || e == "jpeg"@
}

/// Whether a lowercased extension names a Live Photo clip.
pub open spec fn spec_is_clip_ext(e: Seq<char>) -> bool {
    e == "mov"@ || e == "mp4"@
}

/// Whether a lowercased extension names a camera RAW file.
pub open spec fn spec_is_raw_ext(e: Seq<char>) -> bool {
    e == "cr2"@ || e == "cr3"@ || e == "nef"@ || e == "arw"@ || e == "dng"@ || e == "raf"@
        || e == "orf"@ || e == "rw2"@
}

/// Whether a lowercased extension names a JPEG.
pub open spec fn spec_is_jpeg_ext(e: Seq<char>) -> bool {
    e == "jpg"@ || e == "jpeg"@
}

/// Whether a lowercased extension names a still that can join a burst.
pub open spec fn spec_is_burst_ext(e: Seq<char>) -> bool {
    e == "jpg"@ || e == "jpeg"@ || e == "heic"@ || e == "heif"@
}

pub open spec fn spec_path_still(p: Seq<char>) -> bool {
    spec_ext_lower(p) matches Some(e) && spec_is_still_ext(e)
}

pub open spec fn spec_path_clip(p: Seq<char>) -> bool {
    spec_ext_lower(p) matches Some(e) && spec_is_clip_ext(e)
}

pub open spec fn spec_path_raw(p: Seq<char>) -> bool {
    spec_ext_lower(p) matches Some(e) && spec_is_raw_ext(e)
}

pub open spec fn spec_path_jpeg(p: Seq<char>) -> bool {
    spec_ext_lower(p) matches Some(e) && spec_is_jpeg_ext(e)
}

fn is_still_ext(e: &[char]) -> (b: bool)
    ensures
        b == spec_is_still_ext(e@),
{
    eq_lit(e, "heic") || eq_lit(e, "heif") || eq_lit(e, "jpg") || eq_lit(e, "jpeg")
}

fn is_clip_ext(e: &[char]) -> (b: bool)
    ensures
        b == spec_is_clip_ext(e@),
{
    eq_lit(e, "mov") || eq_lit(e, "mp4")
}

/// Whether a lowercased extension names a camera RAW file.
pub fn is_raw_ext(e: &[char]) -> (b: bool)
    ensures
        b == spec_is_raw_ext(e@),
{
    eq_lit(e, "cr2") || eq_lit(e, "cr3") || eq_lit(e, "nef") || eq_lit(e, "arw") || eq_lit(e, "dng")
        || eq_lit(e, "raf") || eq_lit(e, "orf") || eq_lit(e, "rw2")
}

/// Whether a lowercased extension names a JPEG.
pub fn is_jpeg_ext(e: &[char]) -> (b: bool)
    ensures
        b == spec_is_jpeg_ext(e@),
{
    eq_lit(e, "jpg") || eq_lit(e, "jpeg")
}

fn is_burst_ext(e: &[char]) -> (b: bool)
    ensures
        b == spec_is_burst_ext(e@),
{
    eq_lit(e, "jpg") || eq_lit(e, "jpeg") || eq_lit(e, "heic") || eq_lit(e, "heif")
}

/// Whether `path` has a JPEG extension: the files whose tails the caller
/// scans for a Motion Photo trailer.
pub fn is_jpeg_path(path: &str) -> (b: bool)
    ensures
        b == spec_path_jpeg(path@),
{
    match ext_lower(path) {
        Some(e) => is_jpeg_ext(&e),
        None => false,
    }
}

} // verus!

verus! {

// ---------------------------------------------------------- stem grouping

/// Files sharing a parent directory and a stem.
struct StemGroup {
    parent: Vec<char>,
    stem: Vec<char>,
    members: Vec<String>,
}

/// A group of files as the specification sees it: parent, stem, members.
pub type SpecStemGroup = (Seq<char>, Seq<char>, Seq<String>);

/// The parent directory of `p`, empty when there is none.
pub open spec fn spec_parent_or_empty(p: Seq<char>) -> Seq<char> {
    match spec_parent(p) {
        Some(q) => q,
        None => Seq::empty(),
    }
}

/// Index of the first group with the given parent and stem, or -1.
pub open spec fn spec_find_group(g: Seq<SpecStemGroup>, parent: Seq<char>, stem: Seq<char>) -> int
    decreases g.len(),
{
    if g.len() == 0 {
        -1
    } else if g[0].0 == parent && g[0].1 == stem {
        0
    } else {
        let r = spec_find_group(g.drop_first(), parent, stem);
        if r < 0 {
            -1
        } else {
            r + 1
        }
    }
}

/// Files grouped by (parent, stem), groups in the order of their first
/// member, members in input order. Files without a stem join no group.
pub open spec fn spec_stem_groups(ps: Seq<String>) -> Seq<SpecStemGroup>
    decreases ps.len(),
{
    if ps.len() == 0 {
        Seq::empty()
    } else {
        let g = spec_stem_groups(ps.drop_last());
        let p = ps.last();
        match spec_file_stem(p@) {
            None => g,
            Some(st) => {
                let par = spec_parent_or_empty(p@);
                let k = spec_find_group(g, par, st);
                if k >= 0 {
                    g.update(k, (par, st, g[k].2.push(p)))
                } else {
                    g.push((par, st, seq![p]))
                }
            },
        }
    }
}

pub proof fn lemma_find_group(g: Seq<SpecStemGroup>, parent: Seq<char>, stem: Seq<char>)
    ensures
        -1 <= spec_find_group(g, parent, stem) < g.len(),
        spec_find_group(g, parent, stem) >= 0 ==> g[spec_find_group(g, parent, stem)].0 == parent
            && g[spec_find_group(g, parent, stem)].1 == stem,
        forall|k: int|
            0 <= k < g.len() && (spec_find_group(g, parent, stem) < 0 || k < spec_find_group(
                g,
                parent,
                stem,
            )) ==> !(g[k].0 == parent && g[k].1 == stem),
    decreases g.len(),
{
    if g.len() > 0 && !(g[0].0 == parent && g[0].1 == stem) {
        lemma_find_group(g.drop_first(), parent, stem);
        assert forall|k: int|
            0 <= k < g.len() && (spec_find_group(g, parent, stem) < 0 || k < spec_find_group(
                g,
                parent,
                stem,
            )) implies !(g[k].0 == parent && g[k].1 == stem) by {
            if k > 0 {
                assert(g[k] == g.drop_first()[k - 1]);
            }
        }
    }
}

spec fn group_view(g: StemGroup) -> SpecStemGroup {
    (g.parent@, g.stem@, g.members@)
}

spec fn groups_view(gs: Seq<StemGroup>) -> Seq<SpecStemGroup> {
    gs.map_values(|g: StemGroup| group_view(g))
}

spec fn groups_match(gs: Seq<StemGroup>, spec: Seq<SpecStemGroup>) -> bool {
    &&& gs.len() == spec.len()
    &&& forall|k: int| 0 <= k < gs.len() ==> group_view(#[trigger] gs[k]) == spec[k]
}

fn find_group(gs: &Vec<StemGroup>, parent: &[char], stem: &[char]) -> (r: Option<usize>)
    ensures
        match r {
            Some(k) => k as int == spec_find_group(groups_view(gs@), parent@, stem@),
            None => spec_find_group(groups_view(gs@), parent@, stem@) == -1,
        },
{
    let ghost sg = groups_view(gs@);
    proof { lemma_find_group(sg, parent@, stem@); }
    let mut i: usize = 0;
    while i < gs.len()
        invariant
            i <= gs@.len(),
            sg == groups_view(gs@),
            forall|k: int| 0 <= k < i ==> !(sg[k].0 == parent@ && sg[k].1 == stem@),
        decreases gs@.len() - i,
    {
        assert(sg[i as int] == group_view(gs@[i as int]));
        if chars_eq(&gs[i].parent, parent) && chars_eq(&gs[i].stem, stem) {
            assert(sg[i as int].0 == parent@ && sg[i as int].1 == stem@);
            let ghost r = spec_find_group(sg, parent@, stem@);
            proof { lemma_find_group(sg, parent@, stem@); }
            assert(r >= 0);
            assert(!(r < i));
            assert(!(r > i));
            return Some(i);
        }
        i = i + 1;
    }
    proof { lemma_find_group(sg, parent@, stem@); }
    None
}

fn stem_groups(paths: &[String]) -> (gs: Vec<StemGroup>)
    ensures
        groups_match(gs@, spec_stem_groups(paths@)),
{
    let mut gs: Vec<StemGroup> = Vec::new();
    let mut i: usize = 0;
    while i < paths.len()
        invariant
            i <= paths@.len(),
            groups_match(gs@, spec_stem_groups(paths@.subrange(0, i as int))),
        decreases paths@.len() - i,
    {
        let ghost pre = paths@.subrange(0, i as int);
        let ghost cur = paths@.subrange(0, i + 1);
        assert(cur.drop_last() =~= pre);
        assert(cur.last() == paths@[i as int]);
        let ghost sg = groups_view(gs@);
        assert(sg =~= spec_stem_groups(pre));
        let p = &paths[i];
        match file_stem_of(p.as_str()) {
            None => {},
            Some(stem) => {
                let parent = match parent_of(p.as_str()) {
                    Some(q) => chars_of(q.as_str()),
                    None => Vec::new(),
                };
                assert(parent@ == spec_parent_or_empty(p@));
                proof { lemma_find_group(sg, parent@, stem@); }
                match find_group(&gs, &parent, &stem) {
                    Some(k) => {
                        let mut g = gs.remove(k);
                        g.members.push(p.clone());
                        gs.insert(k, g);
                        assert(groups_view(gs@) =~= sg.update(
                            k as int,
                            (parent@, stem@, sg[k as int].2.push(*p)),
                        ));
                    },
                    None => {
                        let mut members: Vec<String> = Vec::new();
                        members.push(p.clone());
                        let g = StemGroup { parent, stem, members };
                        gs.push(g);
                        assert(groups_view(gs@) =~= sg.push(
                            (g.parent@, g.stem@, seq![*p]),
                        ));
                    },
                }
            },
        }
        i = i + 1;
    }
    assert(paths@.subrange(0, paths@.len() as int) =~= paths@);
    gs
}

} // verus!

verus! {

// ------------------------------------------------------ live and raw pairs

/// The kinds of file a pair is built from.
pub open spec fn spec_path_kind(p: Seq<char>, kind: u8) -> bool {
    if kind == 0 {
        spec_path_still(p)
    } else if kind == 1 {
        spec_path_clip(p)
    } else if kind == 2 {
        spec_path_raw(p)
    } else {
        spec_path_jpeg(p)
    }
}

/// The last member of `m` of the given kind.
pub open spec fn spec_last_kind(m: Seq<String>, kind: u8) -> Option<String>
    decreases m.len(),
{
    if m.len() == 0 {
        None
    } else if spec_path_kind(m.last()@, kind) {
        Some(m.last())
    } else {
        spec_last_kind(m.drop_last(), kind)
    }
}

/// The Live Photo a stem group forms, if any.
pub open spec fn spec_live_of(g: SpecStemGroup) -> Option<(String, String)> {
    if g.2.len() < 2 {
        None
    } else {
        match (spec_last_kind(g.2, 0), spec_last_kind(g.2, 1)) {
            (Some(h), Some(v)) => if "IMG_"@.is_prefix_of(g.1) || "img_"@.is_prefix_of(g.1) {
                Some((h, v))
            } else {
                None
            },
            _ => None,
        }
    }
}

/// The RAW+JPEG pair a stem group forms, if any.
pub open spec fn spec_raw_jpeg_of(g: SpecStemGroup) -> Option<(String, String)> {
    if g.2.len() < 2 {
        None
    } else {
        match (spec_last_kind(g.2, 2), spec_last_kind(g.2, 3)) {
            (Some(r), Some(j)) => Some((r, j)),
            _ => None,
        }
    }
}

/// The pairs of kind `which` (0: live, otherwise RAW+JPEG) that the groups
/// form, in group order.
pub open spec fn spec_group_pairs(gs: Seq<SpecStemGroup>, which: u8) -> Seq<(String, String)>
    decreases gs.len(),
{
    if gs.len() == 0 {
        Seq::empty()
    } else {
        let r = spec_group_pairs(gs.drop_last(), which);
        let o = if which == 0 {
            spec_live_of(gs.last())
        } else {
            spec_raw_jpeg_of(gs.last())
        };
        match o {
            Some(x) => r.push(x),
            None => r,
        }
    }
}

/// Live pairs as (still, video).
pub open spec fn spec_live_view(v: Seq<LivePair>) -> Seq<(String, String)> {
    v.map_values(|l: LivePair| (l.still, l.video))
}

/// RAW+JPEG pairs as (raw, jpeg).
pub open spec fn spec_raw_jpeg_view(v: Seq<RawJpegPair>) -> Seq<(String, String)> {
    v.map_values(|l: RawJpegPair| (l.raw, l.jpeg))
}

fn path_kind(p: &str, kind: u8) -> (b: bool)
    ensures
        b == spec_path_kind(p@, kind),
{
    match ext_lower(p) {
        Some(e) => {
            if kind == 0 {
                is_still_ext(&e)
            } else if kind == 1 {
                is_clip_ext(&e)
            } else if kind == 2 {
                is_raw_ext(&e)
            } else {
                is_jpeg_ext(&e)
            }
        },
        None => false,
    }
}

fn last_kind(m: &Vec<String>, kind: u8) -> (r: Option<String>)
    ensures
        r == spec_last_kind(m@, kind),
{
    let mut found: Option<String> = None;
    let mut j: usize = 0;
    while j < m.len()
        invariant
            j <= m@.len(),
            found == spec_last_kind(m@.subrange(0, j as int), kind),
        decreases m@.len() - j,
    {
        assert(m@.subrange(0, j + 1).drop_last() =~= m@.subrange(0, j as int));
        if path_kind(m[j].as_str(), kind) {
            found = Some(m[j].clone());
        }
        j = j + 1;
    }
    assert(m@.subrange(0, m@.len() as int) =~= m@);
    found
}

fn starts_img(stem: &[char]) -> (b: bool)
    ensures
        b == ("IMG_"@.is_prefix_of(stem@) || "img_"@.is_prefix_of(stem@)),
{
    crate::text::starts_with_lit(stem, "IMG_") || crate::text::starts_with_lit(stem, "img_")
}

fn live_pairs(gs: &Vec<StemGroup>) -> (out: Vec<LivePair>)
    ensures
        spec_live_view(out@) == spec_group_pairs(groups_view(gs@), 0),
{
    let mut out: Vec<LivePair> = Vec::new();
    let mut j: usize = 0;
    while j < gs.len()
        invariant
            j <= gs@.len(),
            spec_live_view(out@) == spec_group_pairs(groups_view(gs@).subrange(0, j as int), 0),
        decreases gs@.len() - j,
    {
        let ghost sg = groups_view(gs@);
        assert(sg.subrange(0, j + 1).drop_last() =~= sg.subrange(0, j as int));
        assert(sg.subrange(0, j + 1).last() == group_view(gs@[j as int]));
        let g = &gs[j];
        if g.members.len() >= 2 {
            let h = last_kind(&g.members, 0);
            let v = last_kind(&g.members, 1);
            match (h, v) {
                (Some(h), Some(v)) => {
                    if starts_img(&g.stem) {
                        let ghost before = out@;
                        out.push(LivePair { still: h, video: v });
                        assert(spec_live_view(out@) =~= spec_live_view(before).push(
                            (out@.last().still, out@.last().video),
                        ));
                    }
                },
                _ => {},
            }
        }
        j = j + 1;
    }
    assert(groups_view(gs@).subrange(0, gs@.len() as int) =~= groups_view(gs@));
    out
}

fn raw_jpeg_pairs(gs: &Vec<StemGroup>) -> (out: Vec<RawJpegPair>)
    ensures
        spec_raw_jpeg_view(out@) == spec_group_pairs(groups_view(gs@), 1),
{
    let mut out: Vec<RawJpegPair> = Vec::new();
    let mut j: usize = 0;
    while j < gs.len()
        invariant
            j <= gs@.len(),
            spec_raw_jpeg_view(out@) == spec_group_pairs(
                groups_view(gs@).subrange(0, j as int),
                1,
            ),
        decreases gs@.len() - j,
    {
        let ghost sg = groups_view(gs@);
        assert(sg.subrange(0, j + 1).drop_last() =~= sg.subrange(0, j as int));
        assert(sg.subrange(0, j + 1).last() == group_view(gs@[j as int]));
        let g = &gs[j];
        if g.members.len() >= 2 {
            let r = last_kind(&g.members, 2);
            let p = last_kind(&g.members, 3);
            match (r, p) {
                (Some(r), Some(p)) => {
                    let ghost before = out@;
                    out.push(RawJpegPair { raw: r, jpeg: p });
                    assert(spec_raw_jpeg_view(out@) =~= spec_raw_jpeg_view(before).push(
                        (out@.last().raw, out@.last().jpeg),
                    ));
                },
                _ => {},
            }
        }
        j = j + 1;
    }
    assert(groups_view(gs@).subrange(0, gs@.len() as int) =~= groups_view(gs@));
    out
}

// ------------------------------------------------------------ motion photos

/// The JPEGs among `ps` whose flag in `trailer` is set, in input order.
pub open spec fn spec_motion(ps: Seq<String>, trailer: Seq<bool>) -> Seq<String>
    decreases ps.len(),
{
    if ps.len() == 0 || trailer.len() == 0 {
        Seq::empty()
    } else {
        let r = spec_motion(ps.drop_last(), trailer.drop_last());
        if spec_path_jpeg(ps.last()@) && trailer.last() {
            r.push(ps.last())
        } else {
            r
        }
    }
}

fn motion_paths(paths: &[String], trailer: &[bool]) -> (out: Vec<String>)
    requires
        paths@.len() == trailer@.len(),
    ensures
        out@ == spec_motion(paths@, trailer@),
{
    let mut out: Vec<String> = Vec::new();
    let mut i: usize = 0;
    while i < paths.len()
        invariant
            i <= paths@.len(),
            paths@.len() == trailer@.len(),
            out@ == spec_motion(paths@.subrange(0, i as int), trailer@.subrange(0, i as int)),
        decreases paths@.len() - i,
    {
        assert(paths@.subrange(0, i + 1).drop_last() =~= paths@.subrange(0, i as int));
        assert(trailer@.subrange(0, i + 1).drop_last() =~= trailer@.subrange(0, i as int));
        if is_jpeg_path(paths[i].as_str()) && trailer[i] {
            out.push(paths[i].clone());
        }
        i = i + 1;
    }
    assert(paths@.subrange(0, paths@.len() as int) =~= paths@);
    assert(trailer@.subrange(0, trailer@.len() as int) =~= trailer@);
    out
}

} // verus!

verus! {

// ------------------------------------------------------------------ bursts

/// The burst number of `p`: for a still named `IMG_<n>`, `img_<n>`,
/// `IMG_E<n>` or `IMG_e<n>` (and the same after `img_`), the digits `<n>`,
/// when there is at least one and all are ASCII digits.
pub open spec fn spec_burst_key(p: Seq<char>) -> Option<Seq<char>> {
    if !(spec_ext_lower(p) matches Some(e) && spec_is_burst_ext(e)) {
        None
    } else {
        match spec_file_stem(p) {
            None => None,
            Some(st) => {
                let number = if "IMG_"@.is_prefix_of(st) {
                    Some(st.subrange("IMG_"@.len() as int, st.len() as int))
                } else if "img_"@.is_prefix_of(st) {
                    Some(st.subrange("img_"@.len() as int, st.len() as int))
                } else {
                    None
                };
                match number {
                    None => None,
                    Some(n) => {
                        let kn = if n.len() > 0 && (n[0] == 'E' || n[0] == 'e') {
                            n.drop_first()
                        } else {
                            n
                        };
                        if kn.len() > 0 && crate::text::spec_all_ascii_digits(kn) {
                            Some(kn)
                        } else {
                            None
                        }
                    },
                }
            },
        }
    }
}

/// Whether the stem of `p`, uppercased, starts with `IMG_E`: the edited pick
/// of a burst.
pub open spec fn spec_has_e(p: Seq<char>) -> bool {
    spec_file_stem(p) matches Some(st) && "IMG_E"@.is_prefix_of(crate::text::spec_upper_ascii(st))
}

/// The members of `ps` with burst number `k`, in input order.
pub open spec fn spec_burst_members(ps: Seq<String>, k: Seq<char>) -> Seq<String>
    decreases ps.len(),
{
    if ps.len() == 0 {
        Seq::empty()
    } else {
        let r = spec_burst_members(ps.drop_last(), k);
        if spec_burst_key(ps.last()@) == Some(k) {
            r.push(ps.last())
        } else {
            r
        }
    }
}

/// Whether a group of files is an actual burst: two or more files, one of
/// them an `IMG_E` pick, or three or more files.
pub open spec fn spec_is_burst(m: Seq<String>) -> bool {
    m.len() >= 2 && ((exists|i: int| 0 <= i < m.len() && spec_has_e(#[trigger] m[i]@))
        || m.len() >= 3)
}

/// The bursts that `bursts` must list for the input `ps`: ordered by key,
/// each listing the members of its number, each an actual burst, and every
/// actual burst listed.
pub open spec fn spec_bursts_ok(ps: Seq<String>, b: Seq<BurstGroup>) -> bool {
    &&& forall|i: int, j: int|
        0 <= i < j < b.len() ==> crate::text::spec_lex_lt(#[trigger] b[i].key@, #[trigger] b[j].key@)
    &&& forall|i: int|
        0 <= i < b.len() ==> #[trigger] b[i].members@ == spec_burst_members(ps, b[i].key@)
            && spec_is_burst(b[i].members@)
    &&& forall|i: int|
        0 <= i < ps.len() && (spec_burst_key(#[trigger] ps[i]@) matches Some(k) && spec_is_burst(
            spec_burst_members(ps, k),
        )) ==> exists|j: int| 0 <= j < b.len() && (#[trigger] b[j].key@) == spec_burst_key(ps[i]@)->0
}

pub proof fn lemma_burst_members_none(ps: Seq<String>, k: Seq<char>)
    requires
        forall|q: int| 0 <= q < ps.len() ==> spec_burst_key(#[trigger] ps[q]@) != Some(k),
    ensures
        spec_burst_members(ps, k) == Seq::<String>::empty(),
    decreases ps.len(),
{
    if ps.len() > 0 {
        assert forall|q: int| 0 <= q < ps.drop_last().len() implies spec_burst_key(
            #[trigger] ps.drop_last()[q]@,
        ) != Some(k) by {
            assert(ps.drop_last()[q] == ps[q]);
        }
        lemma_burst_members_none(ps.drop_last(), k);
    }
}

/// The burst number of `p`.
fn burst_key(p: &str) -> (r: Option<Vec<char>>)
    ensures
        match r {
            Some(k) => spec_burst_key(p@) == Some(k@),
            None => spec_burst_key(p@) is None,
        },
{
    let ok_ext = match ext_lower(p) {
        Some(e) => is_burst_ext(&e),
        None => false,
    };
    if !ok_ext {
        return None;
    }
    let st = match file_stem_of(p) {
        Some(st) => st,
        None => return None,
    };
    let n = if crate::text::starts_with_lit(&st, "IMG_") {
        proof { reveal_strlit("IMG_"); }
        crate::text::slice_to_vec(&st, 4, st.len())
    } else if crate::text::starts_with_lit(&st, "img_") {
        proof { reveal_strlit("img_"); }
        crate::text::slice_to_vec(&st, 4, st.len())
    } else {
        return None;
    };
    let kn = if n.len() > 0 && (n[0] == 'E' || n[0] == 'e') {
        crate::text::slice_to_vec(&n, 1, n.len())
    } else {
        n
    };
    if kn.len() > 0 && crate::text::all_ascii_digits(&kn) {
        Some(kn)
    } else {
        None
    }
}

fn has_e(p: &str) -> (b: bool)
    ensures
        b == spec_has_e(p@),
{
    match file_stem_of(p) {
        Some(st) => {
            let up = crate::text::upper_ascii(&st);
            crate::text::starts_with_lit(&up, "IMG_E")
        },
        None => false,
    }
}

fn is_burst(m: &Vec<String>) -> (b: bool)
    ensures
        b == spec_is_burst(m@),
{
    if m.len() < 2 {
        return false;
    }
    let mut i: usize = 0;
    while i < m.len()
        invariant
            i <= m@.len(),
            m@.len() >= 2,
            forall|q: int| 0 <= q < i ==> !spec_has_e(#[trigger] m@[q]@),
        decreases m@.len() - i,
    {
        if has_e(m[i].as_str()) {
            assert(spec_has_e(m@[i as int]@));
            return true;
        }
        i = i + 1;
    }
    m.len() >= 3
}

struct BurstAcc {
    key: Vec<char>,
    members: Vec<String>,
}

spec fn acc_ok(ps: Seq<String>, n: int, e: Seq<BurstAcc>) -> bool {
    &&& forall|i: int, j: int|
        0 <= i < j < e.len() ==> crate::text::spec_lex_lt(#[trigger] e[i].key@, #[trigger] e[j].key@)
    &&& forall|i: int|
        0 <= i < e.len() ==> #[trigger] e[i].members@ == spec_burst_members(
            ps.subrange(0, n),
            e[i].key@,
        )
    &&& forall|q: int|
        0 <= q < n && (spec_burst_key(#[trigger] ps[q]@) is Some) ==> exists|j: int|
            0 <= j < e.len() && (#[trigger] e[j].key@) == spec_burst_key(ps[q]@)->0
}

fn accumulate_bursts(paths: &[String]) -> (e: Vec<BurstAcc>)
    ensures
        acc_ok(paths@, paths@.len() as int, e@),
{
    let mut e: Vec<BurstAcc> = Vec::new();
    let mut i: usize = 0;
    while i < paths.len()
        invariant
            i <= paths@.len(),
            acc_ok(paths@, i as int, e@),
        decreases paths@.len() - i,
    {
        let ghost pre = paths@.subrange(0, i as int);
        let ghost cur = paths@.subrange(0, i + 1);
        assert(cur.drop_last() =~= pre);
        assert(cur.last() == paths@[i as int]);
        let p = &paths[i];
        match burst_key(p.as_str()) {
            None => {
                assert forall|j: int| 0 <= j < e@.len() implies #[trigger] e@[j].members@
                    == spec_burst_members(cur, e@[j].key@) by {}
            },
            Some(k) => {
                // Find the entry for k, or the first entry sorting after k.
                let mut j: usize = 0;
                let mut found = false;
                let mut stop = false;
                while j < e.len() && !stop
                    invariant
                        j <= e@.len(),
                        found ==> stop && j < e@.len() && e@[j as int].key@ == k@,
                        stop && !found ==> j < e@.len() && crate::text::spec_lex_lt(k@, e@[j as int].key@),
                        forall|q: int| 0 <= q < j ==> crate::text::spec_lex_lt(#[trigger] e@[q].key@, k@),
                    decreases (if stop { 0int } else { 1int }) + e@.len() - j,
                {
                    if crate::text::chars_eq(&e[j].key, &k) {
                        found = true;
                        stop = true;
                    } else if crate::text::lex_lt(&k, &e[j].key) {
                        stop = true;
                    } else {
                        proof { crate::text::lemma_lex_total(e@[j as int].key@, k@); }
                        j = j + 1;
                    }
                }
                let ghost old_e = e@;
                if found {
                    assert(old_e[j as int].key@ == k@);
                    let mut g = e.remove(j);
                    g.members.push(p.clone());
                    e.insert(j, g);
                    assert forall|q: int| 0 <= q < e@.len() implies #[trigger] e@[q].members@
                        == spec_burst_members(cur, e@[q].key@) by {
                        if q != j {
                            assert(e@[q] == old_e[q]);
                            if old_e[q].key@ == k@ {
                                crate::text::lemma_lex_irreflexive(k@);
                                if q < j {
                                    assert(crate::text::spec_lex_lt(old_e[q].key@, old_e[j as int].key@));
                                } else {
                                    assert(crate::text::spec_lex_lt(old_e[j as int].key@, old_e[q].key@));
                                }
                            }
                        }
                    }
                    assert forall|a: int, b: int|
                        0 <= a < b < e@.len() implies crate::text::spec_lex_lt(
                        #[trigger] e@[a].key@,
                        #[trigger] e@[b].key@,
                    ) by {
                        assert(e@[a].key@ == old_e[a].key@);
                        assert(e@[b].key@ == old_e[b].key@);
                    }
                } else {
                    proof {
                        assert forall|q: int| 0 <= q < i implies spec_burst_key(
                            #[trigger] pre[q]@,
                        ) != Some(k@) by {
                            assert(pre[q] == paths@[q]);
                            if spec_burst_key(pre[q]@) == Some(k@) {
                                let w = choose|w: int| 0 <= w < old_e.len() && (#[trigger] old_e[w].key@) == k@;
                                if w < j {
                                    crate::text::lemma_lex_irreflexive(k@);
                                } else if w > j {
                                    crate::text::lemma_lex_trans(k@, old_e[j as int].key@, old_e[w].key@);
                                    crate::text::lemma_lex_irreflexive(k@);
                                } else {
                                    crate::text::lemma_lex_irreflexive(k@);
                                }
                            }
                        }
                        lemma_burst_members_none(pre, k@);
                    }
                    let mut members: Vec<String> = Vec::new();
                    members.push(p.clone());
                    e.insert(j, BurstAcc { key: k, members });
                    assert forall|q: int| 0 <= q < e@.len() implies #[trigger] e@[q].members@
                        == spec_burst_members(cur, e@[q].key@) by {
                        crate::text::lemma_lex_irreflexive(k@);
                        if q < j {
                            assert(e@[q] == old_e[q]);
                            assert(crate::text::spec_lex_lt(old_e[q].key@, k@));
                        } else if q > j {
                            assert(e@[q] == old_e[q - 1]);
                            if q - 1 > j {
                                crate::text::lemma_lex_trans(k@, old_e[j as int].key@, old_e[q - 1].key@);
                            }
                            assert(crate::text::spec_lex_lt(k@, old_e[q - 1].key@));
                        } else {
                            assert(e@[q].members@ =~= seq![*p]);
                        }
                    }
                    assert forall|a: int, b: int|
                        0 <= a < b < e@.len() implies crate::text::spec_lex_lt(
                        #[trigger] e@[a].key@,
                        #[trigger] e@[b].key@,
                    ) by {
                        if b < j {
                            assert(e@[a] == old_e[a] && e@[b] == old_e[b]);
                        } else if b == j {
                            assert(e@[a] == old_e[a]);
                        } else if a == j {
                            assert(e@[b] == old_e[b - 1]);
                            if b - 1 > j {
                                crate::text::lemma_lex_trans(k@, old_e[j as int].key@, old_e[b - 1].key@);
                            }
                        } else if a < j {
                            assert(e@[a] == old_e[a] && e@[b] == old_e[b - 1]);
                            crate::text::lemma_lex_trans(old_e[a].key@, k@, old_e[j as int].key@);
                            if b - 1 > j {
                                crate::text::lemma_lex_trans(old_e[a].key@, old_e[j as int].key@, old_e[b - 1].key@);
                            }
                        } else {
                            assert(e@[a] == old_e[a - 1] && e@[b] == old_e[b - 1]);
                        }
                    }
                }
                assert forall|q: int|
                    0 <= q < i + 1 && (spec_burst_key(#[trigger] paths@[q]@) is Some) implies exists|w: int|
                    0 <= w < e@.len() && (#[trigger] e@[w].key@) == spec_burst_key(paths@[q]@)->0 by {
                    if q == i {
                        assert(e@[j as int].key@ == k@);
                    } else {
                        let w = choose|w: int| 0 <= w < old_e.len() && (#[trigger] old_e[w].key@) == spec_burst_key(paths@[q]@)->0;
                        if found || w < j {
                            assert(e@[w].key@ == old_e[w].key@);
                        } else {
                            assert(e@[w + 1].key@ == old_e[w].key@);
                        }
                    }
                }
            },
        }
        i = i + 1;
    }
    assert(paths@.subrange(0, paths@.len() as int) =~= paths@);
    e
}

} // verus!

verus! {

// ----------------------------------------------------- motion photo trailer

/// How many bytes at the end of a JPEG the trailer scan reads.
pub const TRAILER_SCAN_LEN: u64 = 131072;

/// `MotionPhoto_Data`, the Samsung trailer tag.
pub const MOTION_PHOTO_DATA: [u8; 16] = [0x4d, 0x6f, 0x74, 0x69, 0x6f, 0x6e, 0x50, 0x68, 0x6f, 0x74, 0x6f, 0x5f, 0x44, 0x61, 0x74, 0x61];

/// `Motion_Photo_Data`, the tag of some Samsung firmwares.
pub const MOTION_PHOTO_DATA_ALT: [u8; 17] = [0x4d, 0x6f, 0x74, 0x69, 0x6f, 0x6e, 0x5f, 0x50, 0x68, 0x6f, 0x74, 0x6f, 0x5f, 0x44, 0x61, 0x74, 0x61];

/// `MicroVideo`, the Google trailer tag.
pub const MICRO_VIDEO: [u8; 10] = [0x4d, 0x69, 0x63, 0x72, 0x6f, 0x56, 0x69, 0x64, 0x65, 0x6f];

/// Whether `needle` occurs in `hay` (an empty needle never does).
pub open spec fn spec_contains_bytes(hay: Seq<u8>, needle: Seq<u8>) -> bool {
    needle.len() > 0 && exists|i: int|
        0 <= i && i + needle.len() <= hay.len() && #[trigger] hay.subrange(i, i + needle.len())
            == needle
}

/// Whether the tail of a file carries a Motion Photo trailer tag.
pub open spec fn spec_has_motion_trailer(tail: Seq<u8>) -> bool {
    spec_contains_bytes(tail, MOTION_PHOTO_DATA@) || spec_contains_bytes(tail, MOTION_PHOTO_DATA_ALT@)
        || spec_contains_bytes(tail, MICRO_VIDEO@)
}

/// Whether `needle` occurs in `hay`; an empty needle never does.
pub fn memmem(hay: &[u8], needle: &[u8]) -> (b: bool)
    ensures
        b == spec_contains_bytes(hay@, needle@),
{
    if needle.len() == 0 || hay.len() < needle.len() {
        return false;
    }
    let n = needle.len();
    let last = hay.len() - n;
    let mut i: usize = 0;
    while i <= last
        invariant
            n == needle@.len(),
            n > 0,
            i <= last + 1,
            last + n == hay@.len(),
            forall|k: int| 0 <= k < i ==> #[trigger] hay@.subrange(k, k + n) != needle@,
        decreases last + 1 - i,
    {
        let mut j: usize = 0;
        let mut same = true;
        while j < n
            invariant
                j <= n,
                n == needle@.len(),
                i <= last,
                last + n == hay@.len(),
                same == (forall|q: int| 0 <= q < j ==> hay@[i + q] == needle@[q]),
            decreases n - j,
        {
            assert(i + j < hay.len());
            if hay[i + j] != needle[j] {
                same = false;
            }
            j = j + 1;
        }
        if same {
            assert(hay@.subrange(i as int, i + n) =~= needle@);
            return true;
        }
        assert(hay@.subrange(i as int, i + n)[j as int - 1] == hay@[i + j - 1]);
        assert(exists|q: int| 0 <= q < n && hay@[i + q] != needle@[q]);
        let ghost q = choose|q: int| 0 <= q < n && hay@[i + q] != needle@[q];
        assert(hay@.subrange(i as int, i + n)[q] != needle@[q]);
        assert(i < hay.len());
        i = i + 1;
    }
    assert forall|k: int| 0 <= k && k + n <= hay@.len() implies #[trigger] hay@.subrange(k, k + n) != needle@ by {}
    false
}

/// Whether the tail of a file (its last [`TRAILER_SCAN_LEN`] bytes) carries a
/// Motion Photo trailer tag.
pub fn has_motion_photo_trailer(tail: &[u8]) -> (b: bool)
    ensures
        b == spec_has_motion_trailer(tail@),
{
    memmem(tail, &MOTION_PHOTO_DATA) || memmem(tail, &MOTION_PHOTO_DATA_ALT) || memmem(tail, &MICRO_VIDEO)
}

} // verus!

verus! {

fn select_bursts(paths: &[String], e: Vec<BurstAcc>) -> (out: Vec<BurstGroup>)
    requires
        acc_ok(paths@, paths@.len() as int, e@),
    ensures
        spec_bursts_ok(paths@, out@),
{
    let ghost orig = e@;
    assert(paths@.subrange(0, paths@.len() as int) =~= paths@);
    let mut e = e;
    let mut out: Vec<BurstGroup> = Vec::new();
    let mut j: usize = 0;
    let total = e.len();
    while j < total
        invariant
            j <= total,
            total == orig.len(),
            e@ == orig.subrange(j as int, orig.len() as int),
            acc_ok(paths@, paths@.len() as int, orig),
            paths@.subrange(0, paths@.len() as int) == paths@,
            forall|a: int, b: int|
                0 <= a < b < out@.len() ==> crate::text::spec_lex_lt(
                    #[trigger] out@[a].key@,
                    #[trigger] out@[b].key@,
                ),
            forall|a: int|
                0 <= a < out@.len() ==> #[trigger] out@[a].members@ == spec_burst_members(
                    paths@,
                    out@[a].key@,
                ) && spec_is_burst(out@[a].members@),
            forall|a: int| #![trigger out@[a]]
                0 <= a < out@.len() ==> exists|q: int| 0 <= q < j && (#[trigger] orig[q].key@) == out@[a].key@,
            forall|q: int|
                0 <= q < j && spec_is_burst(#[trigger] orig[q].members@) ==> exists|a: int|
                    0 <= a < out@.len() && (#[trigger] out@[a].key@) == orig[q].key@,
        decreases total - j,
    {
        assert(e@[0] == orig[j as int]);
        let g = e.remove(0);
        assert(e@ =~= orig.subrange(j + 1, orig.len() as int));
        if is_burst(&g.members) {
            let ghost before = out@;
            let key = crate::text::string_of(&g.key);
            out.push(BurstGroup { key, members: g.members });
            assert forall|a: int, b: int|
                0 <= a < b < out@.len() implies crate::text::spec_lex_lt(
                #[trigger] out@[a].key@,
                #[trigger] out@[b].key@,
            ) by {
                if b == out@.len() - 1 {
                    assert(out@[a] == before[a]);
                    let q = choose|q: int| 0 <= q < j && (#[trigger] orig[q].key@) == before[a].key@;
                    assert(crate::text::spec_lex_lt(orig[q].key@, orig[j as int].key@));
                } else {
                    assert(out@[a] == before[a] && out@[b] == before[b]);
                }
            }
            assert forall|a: int| #![trigger out@[a]]
                0 <= a < out@.len() implies exists|q: int| 0 <= q < j + 1 && (#[trigger] orig[q].key@) == out@[a].key@ by {
                if a == out@.len() - 1 {
                    assert(orig[j as int].key@ == out@[a].key@);
                } else {
                    assert(out@[a] == before[a]);
                    let q = choose|q: int| 0 <= q < j && (#[trigger] orig[q].key@) == before[a].key@;
                    assert(orig[q].key@ == out@[a].key@);
                }
            }
            assert forall|q: int|
                0 <= q < j + 1 && spec_is_burst(#[trigger] orig[q].members@) implies exists|a: int|
                0 <= a < out@.len() && (#[trigger] out@[a].key@) == orig[q].key@ by {
                if q == j {
                    assert(out@[out@.len() - 1].key@ == orig[q].key@);
                } else {
                    let a = choose|a: int| 0 <= a < before.len() && (#[trigger] before[a].key@) == orig[q].key@;
                    assert(out@[a] == before[a]);
                }
            }
        }
        j = j + 1;
    }
    assert forall|i: int|
        0 <= i < paths@.len() && (spec_burst_key(#[trigger] paths@[i]@) matches Some(k) && spec_is_burst(
            spec_burst_members(paths@, k),
        )) implies exists|w: int| 0 <= w < out@.len() && (#[trigger] out@[w].key@) == spec_burst_key(paths@[i]@)->0 by {
        let k = spec_burst_key(paths@[i]@)->0;
        let q = choose|q: int| 0 <= q < orig.len() && (#[trigger] orig[q].key@) == spec_burst_key(paths@[i]@)->0;
        assert(orig[q].members@ == spec_burst_members(paths@, k));
    }
    out
}

// ---------------------------------------------------------------- the report

/// What [`detect_pairs`] reports for `paths`, whose Motion Photo trailer
/// flags are `trailer`.
pub open spec fn spec_report_ok(paths: Seq<String>, trailer: Seq<bool>, r: PairReport) -> bool {
    &&& spec_live_view(r.live@) == spec_group_pairs(spec_stem_groups(paths), 0)
    &&& spec_raw_jpeg_view(r.raw_jpeg@) == spec_group_pairs(spec_stem_groups(paths), 1)
    &&& r.motion@ == spec_motion(paths, trailer)
    &&& spec_bursts_ok(paths, r.bursts@)
}

/// Inspect `paths` and discover Live Photo pairs, RAW+JPEG pairs, Motion
/// Photos and bursts.
///
/// `trailer[i]` says whether the tail of `paths[i]` carries a Motion Photo
/// trailer (see [`has_motion_photo_trailer`]); it is read only for JPEGs.
pub fn detect_pairs(paths: &[String], trailer: &[bool]) -> (r: PairReport)
    requires
        paths@.len() == trailer@.len(),
    ensures
        spec_report_ok(paths@, trailer@, r),
{
    let groups = stem_groups(paths);
    let live = live_pairs(&groups);
    let raw_jpeg = raw_jpeg_pairs(&groups);
    assert(groups_view(groups@) =~= spec_stem_groups(paths@));
    let motion = motion_paths(paths, trailer);
    let acc = accumulate_bursts(paths);
    let bursts = select_bursts(paths, acc);
    PairReport { live, motion, raw_jpeg, bursts }
}

impl PairReport {
    /// The members of the burst with the given number, if it was reported.
    pub fn burst(&self, key: &str) -> (r: Option<&Vec<String>>)
        ensures
            match r {
                Some(m) => exists|i: int|
                    0 <= i < self.bursts@.len() && self.bursts@[i].key@ == key@ && self.bursts@[i].members
                        == *m,
                None => forall|i: int| 0 <= i < self.bursts@.len() ==> self.bursts@[i].key@ != key@,
            },
    {
        let kc = crate::text::chars_of(key);
        let mut i: usize = 0;
        while i < self.bursts.len()
            invariant
                i <= self.bursts@.len(),
                kc@ == key@,
                forall|q: int| 0 <= q < i ==> self.bursts@[q].key@ != key@,
            decreases self.bursts@.len() - i,
        {
            let c = crate::text::chars_of(self.bursts[i].key.as_str());
            if crate::text::chars_eq(&c, &kc) {
                return Some(&self.bursts[i].members);
            }
            i = i + 1;
        }
        None
    }
}

} // verus!

verus! {

// ---------------------------------------------------------------- laws

/// The directory and stem that group a path.
pub open spec fn spec_pair_key(p: Seq<char>) -> (Seq<char>, Option<Seq<char>>) {
    (spec_parent_or_empty(p), spec_file_stem(p))
}

/// Whether `x` is a pair of kind `which` (0: live, otherwise RAW+JPEG)
/// made of two members of group `g`.
pub open spec fn spec_pair_of_group(x: (String, String), g: SpecStemGroup, which: u8) -> bool {
    &&& g.2.contains(x.0)
    &&& g.2.contains(x.1)
    &&& if which == 0 {
        spec_path_still(x.0@) && spec_path_clip(x.1@) && ("IMG_"@.is_prefix_of(g.1) || "img_"@.is_prefix_of(g.1))
    } else {
        spec_path_raw(x.0@) && spec_path_jpeg(x.1@)
    }
}

/// Whether every member of every group is one of `ps` and has the group's
/// directory and stem, and no two groups share a directory and a stem.
pub open spec fn spec_groups_sound(ps: Seq<String>, gs: Seq<SpecStemGroup>) -> bool {
    &&& forall|k: int, m: int| 0 <= k < gs.len() && 0 <= m < gs[k].2.len() ==> {
        &&& ps.contains(#[trigger] gs[k].2[m])
        &&& spec_pair_key(gs[k].2[m]@) == (gs[k].0, Some(gs[k].1))
    }
    &&& forall|a: int, b: int| 0 <= a < b < gs.len() ==> !(gs[a].0 == gs[b].0 && gs[a].1 == gs[b].1)
}

/// Whether `(a, b)` is a pair of kind `which` of files of `ps` in one
/// directory with one stem.
pub open spec fn spec_pair_sound(ps: Seq<String>, a: String, b: String, which: u8) -> bool {
    &&& ps.contains(a)
    &&& ps.contains(b)
    &&& spec_file_stem(a@) is Some
    &&& spec_pair_key(a@) == spec_pair_key(b@)
    &&& if which == 0 {
        spec_path_still(a@) && spec_path_clip(b@) && ("IMG_"@.is_prefix_of(spec_file_stem(a@)->0)
            || "img_"@.is_prefix_of(spec_file_stem(a@)->0))
    } else {
        spec_path_raw(a@) && spec_path_jpeg(b@)
    }
}

proof fn lemma_stem_groups_sound(ps: Seq<String>)
    ensures
        spec_groups_sound(ps, spec_stem_groups(ps)),
    decreases ps.len(),
{
    if ps.len() > 0 {
        let pre = ps.drop_last();
        lemma_stem_groups_sound(pre);
        let g = spec_stem_groups(pre);
        let p = ps.last();
        assert forall|x: String| pre.contains(x) implies ps.contains(x) by {
            let i = choose|i: int| 0 <= i < pre.len() && pre[i] == x;
            assert(ps[i] == x);
        }
        assert(ps.contains(p)) by {
            assert(ps[ps.len() - 1] == p);
        }
        match spec_file_stem(p@) {
            None => {},
            Some(st) => {
                let par = spec_parent_or_empty(p@);
                lemma_find_group(g, par, st);
                let k = spec_find_group(g, par, st);
                let gs = spec_stem_groups(ps);
                if k >= 0 {
                    assert(gs == g.update(k, (par, st, g[k].2.push(p))));
                    assert forall|q: int, m: int| 0 <= q < gs.len() && 0 <= m < gs[q].2.len() implies {
                        &&& ps.contains(#[trigger] gs[q].2[m])
                        &&& spec_pair_key(gs[q].2[m]@) == (gs[q].0, Some(gs[q].1))
                    } by {
                        if q == k && m == g[k].2.len() {
                            assert(gs[q].2[m] == p);
                        } else {
                            assert(gs[q].2[m] == g[q].2[m]);
                        }
                    }
                } else {
                    assert(gs == g.push((par, st, seq![p])));
                    assert forall|q: int, m: int| 0 <= q < gs.len() && 0 <= m < gs[q].2.len() implies {
                        &&& ps.contains(#[trigger] gs[q].2[m])
                        &&& spec_pair_key(gs[q].2[m]@) == (gs[q].0, Some(gs[q].1))
                    } by {
                        if q < g.len() {
                            assert(gs[q] == g[q]);
                        } else {
                            assert(gs[q].2[m] == p);
                        }
                    }
                }
            },
        }
    }
}

proof fn lemma_last_kind(m: Seq<String>, kind: u8)
    ensures
        spec_last_kind(m, kind) matches Some(x) ==> m.contains(x) && spec_path_kind(x@, kind),
    decreases m.len(),
{
    if m.len() > 0 {
        if spec_path_kind(m.last()@, kind) {
            assert(m[m.len() - 1] == m.last());
        } else {
            lemma_last_kind(m.drop_last(), kind);
            match spec_last_kind(m, kind) {
                Some(x) => {
                    let i = choose|i: int| 0 <= i < m.drop_last().len() && m.drop_last()[i] == x;
                    assert(m[i] == x);
                },
                None => {},
            }
        }
    }
}

proof fn lemma_group_pairs(gs: Seq<SpecStemGroup>, which: u8)
    ensures
        forall|i: int| 0 <= i < spec_group_pairs(gs, which).len() ==> exists|k: int|
            0 <= k < gs.len() && spec_pair_of_group(#[trigger] spec_group_pairs(gs, which)[i], gs[k], which),
        forall|i: int, j: int| 0 <= i < j < spec_group_pairs(gs, which).len() ==> exists|a: int, b: int|
            0 <= a < b < gs.len() && spec_pair_of_group(#[trigger] spec_group_pairs(gs, which)[i], gs[a], which)
                && spec_pair_of_group(#[trigger] spec_group_pairs(gs, which)[j], gs[b], which),
    decreases gs.len(),
{
    if gs.len() > 0 {
        let pre = gs.drop_last();
        lemma_group_pairs(pre, which);
        let r = spec_group_pairs(pre, which);
        let ps = spec_group_pairs(gs, which);
        let g = gs.last();
        let o = if which == 0 {
            spec_live_of(g)
        } else {
            spec_raw_jpeg_of(g)
        };
        lemma_last_kind(g.2, 0);
        lemma_last_kind(g.2, 1);
        lemma_last_kind(g.2, 2);
        lemma_last_kind(g.2, 3);
        assert forall|i: int| 0 <= i < r.len() implies exists|k: int|
            0 <= k < gs.len() - 1 && spec_pair_of_group(#[trigger] r[i], gs[k], which) by {
            let k = choose|k: int| 0 <= k < pre.len() && spec_pair_of_group(r[i], pre[k], which);
            assert(pre[k] == gs[k]);
        }
        match o {
            Some(x) => {
                assert(ps == r.push(x));
                assert(spec_pair_of_group(x, gs[gs.len() - 1], which));
                assert forall|i: int| 0 <= i < ps.len() implies exists|k: int|
                    0 <= k < gs.len() && spec_pair_of_group(#[trigger] ps[i], gs[k], which) by {
                    if i < r.len() {
                        assert(ps[i] == r[i]);
                        let k = choose|k: int| 0 <= k < gs.len() - 1 && spec_pair_of_group(r[i], gs[k], which);
                    } else {
                        assert(ps[i] == x);
                    }
                }
                assert forall|i: int, j: int| 0 <= i < j < ps.len() implies exists|a: int, b: int|
                    0 <= a < b < gs.len() && spec_pair_of_group(#[trigger] ps[i], gs[a], which)
                        && spec_pair_of_group(#[trigger] ps[j], gs[b], which) by {
                    assert(ps[i] == r[i]);
                    if j < r.len() {
                        assert(ps[j] == r[j]);
                        let (a, b) = choose|a: int, b: int| 0 <= a < b < pre.len()
                            && spec_pair_of_group(r[i], pre[a], which) && spec_pair_of_group(r[j], pre[b], which);
                        assert(pre[a] == gs[a] && pre[b] == gs[b]);
                    } else {
                        assert(ps[j] == x);
                        let a = choose|k: int| 0 <= k < gs.len() - 1 && spec_pair_of_group(r[i], gs[k], which);
                        assert(spec_pair_of_group(ps[i], gs[a], which) && spec_pair_of_group(ps[j], gs[gs.len() - 1], which));
                    }
                }
            },
            None => {
                assert(ps == r);
                assert forall|i: int, j: int| 0 <= i < j < ps.len() implies exists|a: int, b: int|
                    0 <= a < b < gs.len() && spec_pair_of_group(#[trigger] ps[i], gs[a], which)
                        && spec_pair_of_group(#[trigger] ps[j], gs[b], which) by {
                    let (a, b) = choose|a: int, b: int| 0 <= a < b < pre.len()
                        && spec_pair_of_group(r[i], pre[a], which) && spec_pair_of_group(r[j], pre[b], which);
                    assert(pre[a] == gs[a] && pre[b] == gs[b]);
                }
            },
        }
    }
}

proof fn lemma_pairs_sound(ps: Seq<String>, which: u8)
    ensures
        forall|i: int| 0 <= i < spec_group_pairs(spec_stem_groups(ps), which).len() ==> spec_pair_sound(
            ps,
            (#[trigger] spec_group_pairs(spec_stem_groups(ps), which)[i]).0,
            spec_group_pairs(spec_stem_groups(ps), which)[i].1,
            which,
        ),
        forall|i: int, j: int| 0 <= i < j < spec_group_pairs(spec_stem_groups(ps), which).len() ==> spec_pair_key(
            (#[trigger] spec_group_pairs(spec_stem_groups(ps), which)[i]).0@,
        ) != spec_pair_key((#[trigger] spec_group_pairs(spec_stem_groups(ps), which)[j]).0@),
{
    let gs = spec_stem_groups(ps);
    let pairs = spec_group_pairs(gs, which);
    lemma_stem_groups_sound(ps);
    lemma_group_pairs(gs, which);
    assert forall|i: int| 0 <= i < pairs.len() implies spec_pair_sound(ps, (#[trigger] pairs[i]).0, pairs[i].1, which) by {
        let k = choose|k: int| 0 <= k < gs.len() && spec_pair_of_group(pairs[i], gs[k], which);
        let m0 = choose|m: int| 0 <= m < gs[k].2.len() && gs[k].2[m] == pairs[i].0;
        let m1 = choose|m: int| 0 <= m < gs[k].2.len() && gs[k].2[m] == pairs[i].1;
        assert(ps.contains(gs[k].2[m0]));
        assert(ps.contains(gs[k].2[m1]));
    }
    assert forall|i: int, j: int| 0 <= i < j < pairs.len() implies spec_pair_key((#[trigger] pairs[i]).0@)
        != spec_pair_key((#[trigger] pairs[j]).0@) by {
        let (a, b) = choose|a: int, b: int| 0 <= a < b < gs.len() && spec_pair_of_group(pairs[i], gs[a], which)
            && spec_pair_of_group(pairs[j], gs[b], which);
        let ma = choose|m: int| 0 <= m < gs[a].2.len() && gs[a].2[m] == pairs[i].0;
        let mb = choose|m: int| 0 <= m < gs[b].2.len() && gs[b].2[m] == pairs[j].0;
        assert(spec_pair_key(gs[a].2[ma]@) == (gs[a].0, Some(gs[a].1)));
        assert(spec_pair_key(gs[b].2[mb]@) == (gs[b].0, Some(gs[b].1)));
    }
}

/// Law: every Live Photo that [`detect_pairs`] reports is a still and a
/// clip among `paths`, in one directory, with one stem that starts with
/// `IMG_` or `img_`; every RAW+JPEG pair is a RAW file and a JPEG among
/// `paths`, in one directory, with one stem; and no two pairs of a kind
/// share a directory and a stem.
pub proof fn lemma_pairs_well_formed(paths: Seq<String>, trailer: Seq<bool>, r: PairReport)
    requires
        spec_report_ok(paths, trailer, r),
    ensures
        forall|i: int| 0 <= i < r.live@.len() ==> spec_pair_sound(paths, (#[trigger] r.live@[i]).still, r.live@[i].video, 0),
        forall|i: int, j: int| 0 <= i < j < r.live@.len() ==> spec_pair_key((#[trigger] r.live@[i]).still@)
            != spec_pair_key((#[trigger] r.live@[j]).still@),
        forall|i: int| 0 <= i < r.raw_jpeg@.len() ==> spec_pair_sound(paths, (#[trigger] r.raw_jpeg@[i]).raw, r.raw_jpeg@[i].jpeg, 1),
        forall|i: int, j: int| 0 <= i < j < r.raw_jpeg@.len() ==> spec_pair_key((#[trigger] r.raw_jpeg@[i]).raw@)
            != spec_pair_key((#[trigger] r.raw_jpeg@[j]).raw@),
{
    lemma_pairs_sound(paths, 0);
    lemma_pairs_sound(paths, 1);
    let lv = spec_group_pairs(spec_stem_groups(paths), 0);
    let rv = spec_group_pairs(spec_stem_groups(paths), 1);
    assert forall|i: int| 0 <= i < r.live@.len() implies spec_pair_sound(paths, (#[trigger] r.live@[i]).still, r.live@[i].video, 0) by {
        assert(spec_live_view(r.live@)[i] == lv[i]);
    }
    assert forall|i: int, j: int| 0 <= i < j < r.live@.len() implies spec_pair_key((#[trigger] r.live@[i]).still@)
        != spec_pair_key((#[trigger] r.live@[j]).still@) by {
        assert(spec_live_view(r.live@)[i] == lv[i]);
        assert(spec_live_view(r.live@)[j] == lv[j]);
    }
    assert forall|i: int| 0 <= i < r.raw_jpeg@.len() implies spec_pair_sound(paths, (#[trigger] r.raw_jpeg@[i]).raw, r.raw_jpeg@[i].jpeg, 1) by {
        assert(spec_raw_jpeg_view(r.raw_jpeg@)[i] == rv[i]);
    }
    assert forall|i: int, j: int| 0 <= i < j < r.raw_jpeg@.len() implies spec_pair_key((#[trigger] r.raw_jpeg@[i]).raw@)
        != spec_pair_key((#[trigger] r.raw_jpeg@[j]).raw@) by {
        assert(spec_raw_jpeg_view(r.raw_jpeg@)[i] == rv[i]);
        assert(spec_raw_jpeg_view(r.raw_jpeg@)[j] == rv[j]);
    }
}

proof fn lemma_burst_members_from(ps: Seq<String>, k: Seq<char>)
    ensures
        forall|m: int| 0 <= m < spec_burst_members(ps, k).len() ==> ps.contains(
            #[trigger] spec_burst_members(ps, k)[m],
        ) && spec_burst_key(spec_burst_members(ps, k)[m]@) == Some(k),
    decreases ps.len(),
{
    if ps.len() > 0 {
        let pre = ps.drop_last();
        lemma_burst_members_from(pre, k);
        let r = spec_burst_members(pre, k);
        let all = spec_burst_members(ps, k);
        assert forall|m: int| 0 <= m < all.len() implies ps.contains(#[trigger] all[m]) && spec_burst_key(all[m]@)
            == Some(k) by {
            if m < r.len() {
                assert(all[m] == r[m]);
                let q = choose|q: int| 0 <= q < pre.len() && pre[q] == r[m];
                assert(ps[q] == r[m]);
            } else {
                assert(all[m] == ps.last());
                assert(ps[ps.len() - 1] == ps.last());
            }
        }
    }
}

/// Law: every burst that [`detect_pairs`] reports lists, in input order,
/// the paths of `paths` whose burst number is its key (each a JPEG or HEIC
/// named `IMG_`/`img_`, an optional `E`, then digits); it has two members of
/// which one is an edited (`E`) pick, or three or more; no two bursts share
/// a key; and every number whose paths make such a group is reported.
pub proof fn lemma_bursts_law(paths: Seq<String>, trailer: Seq<bool>, r: PairReport)
    requires
        spec_report_ok(paths, trailer, r),
    ensures
        forall|i: int| 0 <= i < r.bursts@.len() ==> (#[trigger] r.bursts@[i]).members@ == spec_burst_members(
            paths,
            r.bursts@[i].key@,
        ) && spec_is_burst(r.bursts@[i].members@),
        forall|i: int, m: int| 0 <= i < r.bursts@.len() && 0 <= m < r.bursts@[i].members@.len() ==> paths.contains(
            #[trigger] r.bursts@[i].members@[m],
        ) && spec_burst_key(r.bursts@[i].members@[m]@) == Some(r.bursts@[i].key@),
        forall|i: int, j: int| 0 <= i < j < r.bursts@.len() ==> r.bursts@[i].key@ != r.bursts@[j].key@,
        forall|q: int| 0 <= q < paths.len() && (spec_burst_key(#[trigger] paths[q]@) matches Some(k) && spec_is_burst(
            spec_burst_members(paths, k),
        )) ==> exists|j: int| 0 <= j < r.bursts@.len() && (#[trigger] r.bursts@[j].key@) == spec_burst_key(paths[q]@)->0,
{
    let b = r.bursts@;
    assert forall|i: int, m: int| 0 <= i < b.len() && 0 <= m < b[i].members@.len() implies paths.contains(
        #[trigger] b[i].members@[m],
    ) && spec_burst_key(b[i].members@[m]@) == Some(b[i].key@) by {
        assert(b[i].members@ == spec_burst_members(paths, b[i].key@));
        lemma_burst_members_from(paths, b[i].key@);
    }
    assert forall|i: int, j: int| 0 <= i < j < b.len() implies b[i].key@ != b[j].key@ by {
        assert(crate::text::spec_lex_lt(b[i].key@, b[j].key@));
        crate::text::lemma_lex_irreflexive(b[i].key@);
    }
}

proof fn lemma_stem_groups_complete(ps: Seq<String>)
    ensures
        forall|q: int| 0 <= q < ps.len() && spec_file_stem(ps[q]@) is Some ==> exists|k: int|
            0 <= k < spec_stem_groups(ps).len() && spec_stem_groups(ps)[k].0 == spec_parent_or_empty(
                (#[trigger] ps[q])@,
            ) && Some(spec_stem_groups(ps)[k].1) == spec_file_stem(ps[q]@) && spec_stem_groups(ps)[k].2.contains(ps[q]),
    decreases ps.len(),
{
    if ps.len() > 0 {
        let pre = ps.drop_last();
        lemma_stem_groups_complete(pre);
        let g = spec_stem_groups(pre);
        let gs = spec_stem_groups(ps);
        let p = ps.last();
        assert forall|q: int| 0 <= q < ps.len() && spec_file_stem(ps[q]@) is Some implies exists|k: int|
            0 <= k < gs.len() && gs[k].0 == spec_parent_or_empty((#[trigger] ps[q])@) && Some(gs[k].1) == spec_file_stem(
                ps[q]@,
            ) && gs[k].2.contains(ps[q]) by {
            match spec_file_stem(p@) {
                None => {
                    assert(gs == g);
                    if q < pre.len() {
                        assert(pre[q] == ps[q]);
                    }
                },
                Some(st) => {
                    let par = spec_parent_or_empty(p@);
                    lemma_find_group(g, par, st);
                    let f = spec_find_group(g, par, st);
                    if q < pre.len() {
                        assert(pre[q] == ps[q]);
                        let k = choose|k: int| 0 <= k < g.len() && g[k].0 == spec_parent_or_empty(pre[q]@)
                            && Some(g[k].1) == spec_file_stem(pre[q]@) && g[k].2.contains(pre[q]);
                        if f >= 0 {
                            assert(gs == g.update(f, (par, st, g[f].2.push(p))));
                            if k == f {
                                let m = choose|m: int| 0 <= m < g[k].2.len() && g[k].2[m] == pre[q];
                                assert(gs[k].2[m] == pre[q]);
                            } else {
                                assert(gs[k] == g[k]);
                            }
                        } else {
                            assert(gs == g.push((par, st, seq![p])));
                            assert(gs[k] == g[k]);
                        }
                    } else {
                        assert(ps[q] == p);
                        if f >= 0 {
                            assert(gs == g.update(f, (par, st, g[f].2.push(p))));
                            assert(gs[f].2[g[f].2.len() as int] == p);
                        } else {
                            assert(gs == g.push((par, st, seq![p])));
                            assert(gs[g.len() as int].2[0] == p);
                        }
                    }
                },
            }
        }
    }
}

proof fn lemma_last_kind_some(m: Seq<String>, kind: u8, x: String)
    requires
        m.contains(x),
        spec_path_kind(x@, kind),
    ensures
        spec_last_kind(m, kind) is Some,
    decreases m.len(),
{
    if !spec_path_kind(m.last()@, kind) {
        let i = choose|i: int| 0 <= i < m.len() && m[i] == x;
        if i == m.len() - 1 {
            assert(m.last() == x);
        } else {
            assert(m.drop_last()[i] == x);
            lemma_last_kind_some(m.drop_last(), kind, x);
        }
    }
}

proof fn lemma_group_pairs_complete(gs: Seq<SpecStemGroup>, which: u8)
    ensures
        forall|k: int| 0 <= k < gs.len() && (if which == 0 {
            spec_live_of(gs[k])
        } else {
            spec_raw_jpeg_of(gs[k])
        }) is Some ==> exists|i: int| 0 <= i < spec_group_pairs(gs, which).len() && Some(
            spec_group_pairs(gs, which)[i],
        ) == (if which == 0 {
            spec_live_of(#[trigger] gs[k])
        } else {
            spec_raw_jpeg_of(gs[k])
        }),
    decreases gs.len(),
{
    if gs.len() > 0 {
        let pre = gs.drop_last();
        lemma_group_pairs_complete(pre, which);
        let r = spec_group_pairs(pre, which);
        let all = spec_group_pairs(gs, which);
        let o = if which == 0 {
            spec_live_of(gs.last())
        } else {
            spec_raw_jpeg_of(gs.last())
        };
        assert forall|k: int| 0 <= k < gs.len() && (if which == 0 {
            spec_live_of(gs[k])
        } else {
            spec_raw_jpeg_of(gs[k])
        }) is Some implies exists|i: int| 0 <= i < all.len() && Some(all[i]) == (if which == 0 {
            spec_live_of(#[trigger] gs[k])
        } else {
            spec_raw_jpeg_of(gs[k])
        }) by {
            if k < pre.len() {
                assert(pre[k] == gs[k]);
                let i = choose|i: int| 0 <= i < r.len() && Some(r[i]) == (if which == 0 {
                    spec_live_of(pre[k])
                } else {
                    spec_raw_jpeg_of(pre[k])
                });
                match o {
                    Some(x) => {
                        assert(all == r.push(x));
                        assert(all[i] == r[i]);
                    },
                    None => {
                        assert(all == r);
                    },
                }
            } else {
                assert(gs[k] == gs.last());
                assert(all == r.push(o->0));
                assert(all[r.len() as int] == o->0);
            }
        }
    }
}

proof fn lemma_two_members(m: Seq<String>, x: String, y: String)
    requires
        m.contains(x),
        m.contains(y),
        x != y,
    ensures
        m.len() >= 2,
{
    let i = choose|i: int| 0 <= i < m.len() && m[i] == x;
    let j = choose|j: int| 0 <= j < m.len() && m[j] == y;
    assert(i != j);
}

/// Law: RAW+JPEG pairing is complete. Whenever `paths` holds a file whose
/// lowercased extension is one of `cr2`, `cr3`, `nef`, `arw`, `dng`, `raf`,
/// `orf`, `rw2` and a file with extension `jpg` or `jpeg` in the same
/// directory with the same stem, [`detect_pairs`] reports a RAW+JPEG pair for
/// that directory and stem (and, by [`lemma_pairs_well_formed`], only one).
pub proof fn lemma_raw_jpeg_complete(paths: Seq<String>, trailer: Seq<bool>, r: PairReport, a: int, b: int)
    requires
        spec_report_ok(paths, trailer, r),
        0 <= a < paths.len(),
        0 <= b < paths.len(),
        spec_file_stem(paths[a]@) is Some,
        spec_pair_key(paths[a]@) == spec_pair_key(paths[b]@),
        spec_ext_lower(paths[a]@) matches Some(e) && (e == "cr2"@ || e == "cr3"@ || e == "nef"@ || e == "arw"@
            || e == "dng"@ || e == "raf"@ || e == "orf"@ || e == "rw2"@),
        spec_ext_lower(paths[b]@) matches Some(f) && (f == "jpg"@ || f == "jpeg"@),
    ensures
        exists|i: int| 0 <= i < r.raw_jpeg@.len() && spec_pair_key((#[trigger] r.raw_jpeg@[i]).raw@) == spec_pair_key(
            paths[a]@,
        ) && spec_pair_key(r.raw_jpeg@[i].jpeg@) == spec_pair_key(paths[a]@),
{
    let gs = spec_stem_groups(paths);
    lemma_stem_groups_complete(paths);
    lemma_stem_groups_sound(paths);
    let k = choose|k: int| 0 <= k < gs.len() && gs[k].0 == spec_parent_or_empty(paths[a]@) && Some(gs[k].1)
        == spec_file_stem(paths[a]@) && gs[k].2.contains(paths[a]);
    let kb = choose|kb: int| 0 <= kb < gs.len() && gs[kb].0 == spec_parent_or_empty(paths[b]@) && Some(gs[kb].1)
        == spec_file_stem(paths[b]@) && gs[kb].2.contains(paths[b]);
    assert(kb == k) by {
        if kb != k {
            if kb < k {
                assert(!(gs[kb].0 == gs[k].0 && gs[kb].1 == gs[k].1));
            } else {
                assert(!(gs[k].0 == gs[kb].0 && gs[k].1 == gs[kb].1));
            }
        }
    }
    let g = gs[k];
    reveal_strlit("jpg");
    reveal_strlit("jpeg");
    assert(spec_path_kind(paths[a]@, 2));
    assert(spec_path_kind(paths[b]@, 3));
    assert(paths[a] != paths[b]) by {
        if paths[a] == paths[b] {
            let e = spec_ext_lower(paths[a]@)->0;
            reveal_strlit("cr2");
            reveal_strlit("cr3");
            reveal_strlit("nef");
            reveal_strlit("arw");
            reveal_strlit("dng");
            reveal_strlit("raf");
            reveal_strlit("orf");
            reveal_strlit("rw2");
            assert(e.len() > 0 && e[0] == 'j');
            assert(e[0] != 'j');
        }
    }
    lemma_two_members(g.2, paths[a], paths[b]);
    lemma_last_kind_some(g.2, 2, paths[a]);
    lemma_last_kind_some(g.2, 3, paths[b]);
    lemma_last_kind(g.2, 2);
    lemma_last_kind(g.2, 3);
    lemma_group_pairs_complete(gs, 1);
    let pairs = spec_group_pairs(gs, 1);
    let i = choose|i: int| 0 <= i < pairs.len() && Some(pairs[i]) == spec_raw_jpeg_of(gs[k]);
    assert(spec_raw_jpeg_view(r.raw_jpeg@)[i] == pairs[i]);
    let x = pairs[i];
    let mr = choose|m: int| 0 <= m < g.2.len() && g.2[m] == x.0;
    let mj = choose|m: int| 0 <= m < g.2.len() && g.2[m] == x.1;
    assert(spec_pair_key(g.2[mr]@) == (g.0, Some(g.1)));
    assert(spec_pair_key(g.2[mj]@) == (g.0, Some(g.1)));
}

/// Law: Live Photo pairing is complete. Whenever `paths` holds a still with
/// lowercased extension `heic`, `heif`, `jpg` or `jpeg` and a clip with
/// extension `mov` or `mp4` in the same directory with the same stem, and
/// that stem starts with `IMG_` or `img_`, [`detect_pairs`] reports a Live
/// Photo for that directory and stem.
pub proof fn lemma_live_complete(paths: Seq<String>, trailer: Seq<bool>, r: PairReport, a: int, b: int)
    requires
        spec_report_ok(paths, trailer, r),
        0 <= a < paths.len(),
        0 <= b < paths.len(),
        spec_file_stem(paths[a]@) matches Some(st) && ("IMG_"@.is_prefix_of(st) || "img_"@.is_prefix_of(st)),
        spec_pair_key(paths[a]@) == spec_pair_key(paths[b]@),
        spec_ext_lower(paths[a]@) matches Some(e) && (e == "heic"@ || e == "heif"@ || e == "jpg"@ || e == "jpeg"@),
        spec_ext_lower(paths[b]@) matches Some(f) && (f == "mov"@ || f == "mp4"@),
    ensures
        exists|i: int| 0 <= i < r.live@.len() && spec_pair_key((#[trigger] r.live@[i]).still@) == spec_pair_key(
            paths[a]@,
        ) && spec_pair_key(r.live@[i].video@) == spec_pair_key(paths[a]@),
{
    let gs = spec_stem_groups(paths);
    lemma_stem_groups_complete(paths);
    lemma_stem_groups_sound(paths);
    let k = choose|k: int| 0 <= k < gs.len() && gs[k].0 == spec_parent_or_empty(paths[a]@) && Some(gs[k].1)
        == spec_file_stem(paths[a]@) && gs[k].2.contains(paths[a]);
    let kb = choose|kb: int| 0 <= kb < gs.len() && gs[kb].0 == spec_parent_or_empty(paths[b]@) && Some(gs[kb].1)
        == spec_file_stem(paths[b]@) && gs[kb].2.contains(paths[b]);
    assert(kb == k) by {
        if kb != k {
            if kb < k {
                assert(!(gs[kb].0 == gs[k].0 && gs[kb].1 == gs[k].1));
            } else {
                assert(!(gs[k].0 == gs[kb].0 && gs[k].1 == gs[kb].1));
            }
        }
    }
    let g = gs[k];
    assert(spec_path_kind(paths[a]@, 0));
    assert(spec_path_kind(paths[b]@, 1));
    assert(paths[a] != paths[b]) by {
        if paths[a] == paths[b] {
            let e = spec_ext_lower(paths[a]@)->0;
            reveal_strlit("heic");
            reveal_strlit("heif");
            reveal_strlit("jpg");
            reveal_strlit("jpeg");
            reveal_strlit("mov");
            reveal_strlit("mp4");
            assert(e.len() > 0 && e[0] == 'm');
            assert(e[0] != 'm');
        }
    }
    lemma_two_members(g.2, paths[a], paths[b]);
    lemma_last_kind_some(g.2, 0, paths[a]);
    lemma_last_kind_some(g.2, 1, paths[b]);
    lemma_last_kind(g.2, 0);
    lemma_last_kind(g.2, 1);
    lemma_group_pairs_complete(gs, 0);
    let pairs = spec_group_pairs(gs, 0);
    let i = choose|i: int| 0 <= i < pairs.len() && Some(pairs[i]) == spec_live_of(gs[k]);
    assert(spec_live_view(r.live@)[i] == pairs[i]);
    let x = pairs[i];
    let mr = choose|m: int| 0 <= m < g.2.len() && g.2[m] == x.0;
    let mj = choose|m: int| 0 <= m < g.2.len() && g.2[m] == x.1;
    assert(spec_pair_key(g.2[mr]@) == (g.0, Some(g.1)));
    assert(spec_pair_key(g.2[mj]@) == (g.0, Some(g.1)));
}

/// Law: the burst number of a file. A JPEG or HEIC/HEIF file (by its
/// lowercased extension `jpg`, `jpeg`, `heic` or `heif`) whose stem is
/// `IMG_` or `img_`, then nothing, `E` or `e`, then one or more ASCII digits
/// `k`, has burst number `k`.
pub proof fn lemma_burst_key_of(p: Seq<char>, pre: Seq<char>, e: Seq<char>, k: Seq<char>)
    requires
        spec_ext_lower(p) matches Some(x) && (x == "jpg"@ || x == "jpeg"@ || x == "heic"@ || x == "heif"@),
        spec_file_stem(p) == Some(pre + e + k),
        pre == "IMG_"@ || pre == "img_"@,
        e == ""@ || e == "E"@ || e == "e"@,
        k.len() > 0,
        forall|i: int| 0 <= i < k.len() ==> '0' <= #[trigger] k[i] <= '9',
    ensures
        spec_burst_key(p) == Some(k),
{
    reveal_strlit("IMG_");
    reveal_strlit("img_");
    reveal_strlit("");
    reveal_strlit("E");
    reveal_strlit("e");
    let st = pre + e + k;
    assert(pre.is_prefix_of(st)) by { assert(st.subrange(0, 4) =~= pre); }
    if pre == "img_"@ {
        assert(!"IMG_"@.is_prefix_of(st)) by { assert(st[0] == 'i'); if "IMG_"@.is_prefix_of(st) { assert("IMG_"@[0] == st[0]); } }
    }
    let n = st.subrange(4, st.len() as int);
    assert(n =~= e + k);
    if e.len() == 0 {
        assert(n =~= k);
        assert(!(n[0] == 'E' || n[0] == 'e')) by { assert('0' <= k[0] <= '9'); }
    } else {
        assert(n[0] == 'E' || n[0] == 'e');
        assert(n.drop_first() =~= k);
    }
    assert(crate::text::spec_all_ascii_digits(k)) by {
        assert forall|i: int| 0 <= i < k.len() implies crate::text::spec_is_ascii_digit(#[trigger] k[i]) by {
            assert('0' <= k[i] <= '9');
        }
    }
}

/// Law: conversely, a file with burst number `k` is a JPEG or HEIC/HEIF
/// file whose stem ends in the ASCII digits `k` and begins with `IMG_` or
/// `img_`, with at most an `E` or `e` between.
pub proof fn lemma_burst_key_shape(p: Seq<char>, k: Seq<char>)
    requires
        spec_burst_key(p) == Some(k),
    ensures
        spec_ext_lower(p) matches Some(x) && (x == "jpg"@ || x == "jpeg"@ || x == "heic"@ || x == "heif"@),
        k.len() > 0,
        forall|i: int| 0 <= i < k.len() ==> '0' <= #[trigger] k[i] <= '9',
        spec_file_stem(p) matches Some(st) && ("IMG_"@.is_prefix_of(st) || "img_"@.is_prefix_of(st)) && (st
            =~= st.subrange(0, 4) + k || (st =~= st.subrange(0, 5) + k && (st[4] == 'E' || st[4] == 'e'))),
{
    reveal_strlit("IMG_");
    reveal_strlit("img_");
    let st = spec_file_stem(p)->0;
    assert forall|i: int| 0 <= i < k.len() implies '0' <= #[trigger] k[i] <= '9' by {
        assert(crate::text::spec_is_ascii_digit(k[i]));
    }
    let n = st.subrange(4, st.len() as int);
    if n.len() > 0 && (n[0] == 'E' || n[0] == 'e') {
        assert(k =~= n.drop_first());
        assert(st =~= st.subrange(0, 5) + k);
    } else {
        assert(k =~= n);
        assert(st =~= st.subrange(0, 4) + k);
    }
}

/// Law: a group of burst frames is reported when it has three or more
/// frames, or two of which one's stem, in upper case, begins with `IMG_E`
/// (the edited pick); a single frame is never a burst.
pub proof fn lemma_is_burst_rule(m: Seq<String>)
    ensures
        spec_is_burst(m) <==> (m.len() >= 3 || (m.len() == 2 && exists|i: int| 0 <= i < 2 && (spec_file_stem(
            (#[trigger] m[i])@,
        ) matches Some(st) && "IMG_E"@.is_prefix_of(crate::text::spec_upper_ascii(st))))),
{
}

proof fn lemma_motion_members(ps: Seq<String>, tr: Seq<bool>)
    requires
        ps.len() == tr.len(),
    ensures
        forall|q: int| 0 <= q < ps.len() && tr[q] && (spec_ext_lower(ps[q]@) == Some("jpg"@) || spec_ext_lower(ps[q]@) == Some("jpeg"@)) ==> spec_motion(ps, tr).contains(#[trigger] ps[q]),
        forall|m: int| #![trigger spec_motion(ps, tr)[m]] 0 <= m < spec_motion(ps, tr).len() ==> exists|q: int| 0 <= q < ps.len() && ps[q]
            == spec_motion(ps, tr)[m] && tr[q] && (spec_ext_lower(ps[q]@) == Some("jpg"@) || spec_ext_lower(ps[q]@) == Some("jpeg"@)),
    decreases ps.len(),
{
    if ps.len() > 0 {
        let pp = ps.drop_last();
        let pt = tr.drop_last();
        lemma_motion_members(pp, pt);
        let r = spec_motion(pp, pt);
        let all = spec_motion(ps, tr);
        let l = ps.len() - 1;
        assert(ps[l] == ps.last() && tr[l] == tr.last());
        if spec_path_jpeg(ps.last()@) && tr.last() {
            assert(all == r.push(ps.last()));
        } else {
            assert(all == r);
        }
        assert forall|q: int| 0 <= q < ps.len() && tr[q] && (spec_ext_lower(ps[q]@) == Some("jpg"@) || spec_ext_lower(ps[q]@) == Some("jpeg"@)) implies all.contains(#[trigger] ps[q]) by {
            if q < l {
                assert(pp[q] == ps[q] && pt[q] == tr[q]);
                let m = choose|m: int| 0 <= m < r.len() && r[m] == pp[q];
                if spec_path_jpeg(ps.last()@) && tr.last() {
                    assert(all[m] == r[m]);
                }
            } else {
                assert(all[r.len() as int] == ps[q]);
            }
        }
        assert forall|m: int| #![trigger all[m]] 0 <= m < all.len() implies exists|q: int| 0 <= q < ps.len() && ps[q] == all[m]
            && tr[q] && (spec_ext_lower(ps[q]@) == Some("jpg"@) || spec_ext_lower(ps[q]@) == Some("jpeg"@)) by {
            if m < r.len() {
                assert(all[m] == r[m]);
                let q = choose|q: int| 0 <= q < pp.len() && pp[q] == r[m] && pt[q] && (spec_ext_lower(pp[q]@) == Some("jpg"@) || spec_ext_lower(pp[q]@) == Some("jpeg"@));
                assert(ps[q] == pp[q] && tr[q] == pt[q]);
            } else {
                assert(all[m] == ps.last());
                assert(ps[l] == all[m] && tr[l]);
            }
        }
    }
}

/// Law: the Motion Photos of a set of paths are exactly the JPEGs (by
/// lowercased extension `jpg` or `jpeg`) whose tails carry a Motion Photo
/// trailer: every such path is reported, and every reported path is one.
pub proof fn lemma_motion_rule(paths: Seq<String>, trailer: Seq<bool>, r: PairReport)
    requires
        spec_report_ok(paths, trailer, r),
        paths.len() == trailer.len(),
    ensures
        forall|q: int| 0 <= q < paths.len() && trailer[q] && (spec_ext_lower(paths[q]@) matches Some(e) && (e
            == "jpg"@ || e == "jpeg"@)) ==> r.motion@.contains(#[trigger] paths[q]),
        forall|m: int| #![trigger r.motion@[m]] 0 <= m < r.motion@.len() ==> exists|q: int| 0 <= q < paths.len() && paths[q]
            == r.motion@[m] && trailer[q] && (spec_ext_lower(paths[q]@) == Some("jpg"@) || spec_ext_lower(paths[q]@) == Some("jpeg"@)),
{
    lemma_motion_members(paths, trailer);
    let ms = spec_motion(paths, trailer);
    assert(r.motion@ == ms);
    assert forall|q: int| 0 <= q < paths.len() && trailer[q] && (spec_ext_lower(paths[q]@) matches Some(e) && (e
        == "jpg"@ || e == "jpeg"@)) implies r.motion@.contains(#[trigger] paths[q]) by {
        assert(ms.contains(paths[q]));
    }
    assert forall|m: int| #![trigger r.motion@[m]] 0 <= m < r.motion@.len() implies exists|q: int| 0 <= q < paths.len() && paths[q]
        == r.motion@[m] && trailer[q] && (spec_ext_lower(paths[q]@) == Some("jpg"@) || spec_ext_lower(paths[q]@) == Some("jpeg"@)) by {
        assert(r.motion@[m] == ms[m]);
    }
}

/// Law: the three Motion Photo trailer tags are the ASCII texts
/// `MotionPhoto_Data`, `Motion_Photo_Data` and `MicroVideo`, and a tail
/// carries a trailer exactly when it holds one of them.
pub proof fn lemma_trailer_tags(tail: Seq<u8>)
    ensures
        MOTION_PHOTO_DATA@ == seq![77u8, 111, 116, 105, 111, 110, 80, 104, 111, 116, 111, 95, 68, 97, 116, 97],
        MOTION_PHOTO_DATA_ALT@ == seq![77u8, 111, 116, 105, 111, 110, 95, 80, 104, 111, 116, 111, 95, 68, 97, 116, 97],
        MICRO_VIDEO@ == seq![77u8, 105, 99, 114, 111, 86, 105, 100, 101, 111],
        spec_has_motion_trailer(tail) <==> (spec_contains_bytes(tail, MOTION_PHOTO_DATA@) || spec_contains_bytes(
            tail,
            MOTION_PHOTO_DATA_ALT@,
        ) || spec_contains_bytes(tail, MICRO_VIDEO@)),
{
    assert(MOTION_PHOTO_DATA@ =~= seq![77u8, 111, 116, 105, 111, 110, 80, 104, 111, 116, 111, 95, 68, 97, 116, 97]);
    assert(MOTION_PHOTO_DATA_ALT@ =~= seq![77u8, 111, 116, 105, 111, 110, 95, 80, 104, 111, 116, 111, 95, 68, 97, 116, 97]);
    assert(MICRO_VIDEO@ =~= seq![77u8, 105, 99, 114, 111, 86, 105, 100, 101, 111]);
}

} // verus!
