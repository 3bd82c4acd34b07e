//! The parts of media probing that read names and leading bytes: MIME
//! sniffing and the screenshot heuristic.

use crate::paths::{file_name_of, parent_of, spec_file_name, spec_parent};
use crate::text::{chars_of, eq_lit, lower_ascii, slice_to_vec, spec_lower_ascii, starts_with_lit, string_of};
use vstd::prelude::*;

verus! {

/// The MIME type `infer` recognises in the leading bytes of a file.
pub uninterp spec fn spec_infer_mime(head: Seq<u8>) -> Option<Seq<char>>;

/// Calls `infer::get` and the recognised type's `mime_type`. The contract
/// claims only that the result is the function of the bytes named
/// `spec_infer_mime`.
#[verifier::external_body]
fn infer_mime(head: &[u8]) -> (r: Option<&'static str>)
    ensures
        match r {
            Some(m) => spec_infer_mime(head@) == Some(m@),
            None => spec_infer_mime(head@) is None,
        },
{
    infer::get(head).map(|k| k.mime_type())
}

/// The MIME type assumed from a lowercased extension when the content is
/// not recognised.
pub open spec fn spec_mime_for_ext(ext: Option<Seq<char>>) -> Seq<char> {
    match ext {
        Some(e) => if e == "heic"@ || e == "heif"@ {
            "image/heic"@
        } else if e == "jpg"@ || e == "jpeg"@ {
            "image/jpeg"@
        } else if e == "png"@ {
            "image/png"@
        } else if e == "gif"@ {
            "image/gif"@
        } else if e == "webp"@ {
            "image/webp"@
        } else if e == "tif"@ || e == "tiff"@ {
            "image/tiff"@
        } else if e == "mp4"@ || e == "m4v"@ {
            "video/mp4"@
        } else if e == "mov"@ {
            "video/quicktime"@
        } else if e == "mkv"@ {
            "video/x-matroska"@
        } else if e == "webm"@ {
            "video/webm"@
        } else {
            "application/octet-stream"@
        },
        None => "application/octet-stream"@,
    }
}

/// The MIME type assumed from a lowercased extension.
pub fn mime_for_ext(ext: Option<&[char]>) -> (m: &'static str)
    ensures
        m@ == spec_mime_for_ext(
            match ext {
                Some(e) => Some(e@),
                None => None,
            },
        ),
{
    match ext {
        Some(e) => if eq_lit(e, "heic") || eq_lit(e, "heif") {
            "image/heic"
        } else if eq_lit(e, "jpg") || eq_lit(e, "jpeg") {
            "image/jpeg"
        } else if eq_lit(e, "png") {
            "image/png"
        } else if eq_lit(e, "gif") {
            "image/gif"
        } else if eq_lit(e, "webp") {
            "image/webp"
        } else if eq_lit(e, "tif") || eq_lit(e, "tiff") {
            "image/tiff"
        } else if eq_lit(e, "mp4") || eq_lit(e, "m4v") {
            "video/mp4"
        } else if eq_lit(e, "mov") {
            "video/quicktime"
        } else if eq_lit(e, "mkv") {
            "video/x-matroska"
        } else if eq_lit(e, "webm") {
            "video/webm"
        } else {
            "application/octet-stream"
        },
        None => "application/octet-stream",
    }
}

/// The MIME type of a file: what its leading bytes say, else what its
/// lowercased extension says.
pub open spec fn spec_sniff_mime(head: Seq<u8>, ext: Option<Seq<char>>) -> Seq<char> {
    match spec_infer_mime(head) {
        Some(m) => m,
        None => spec_mime_for_ext(ext),
    }
}

/// The MIME type of a file from its first (up to 512) bytes and its
/// lowercased extension.
pub fn sniff_mime(head: &[u8], ext: Option<&[char]>) -> (m: &'static str)
    ensures
        m@ == spec_sniff_mime(
            head@,
            match ext {
                Some(e) => Some(e@),
                None => None,
            },
        ),
{
    match infer_mime(head) {
        Some(m) => m,
        None => mime_for_ext(ext),
    }
}

/// Whether a path names a screenshot: its file name, lowercased, starts
/// with `screenshot` or `screen shot`, or its parent directory is named
/// `Screenshots` (in any ASCII case).
pub open spec fn spec_looks_like_screenshot(path: Seq<char>) -> bool {
    let name = match spec_file_name(path) {
        Some(n) => spec_lower_ascii(n),
        None => Seq::empty(),
    };
    "screenshot"@.is_prefix_of(name) || "screen shot"@.is_prefix_of(name) || (spec_parent(path) matches Some(
        q,
    ) && spec_file_name(q) matches Some(pn) && spec_lower_ascii(pn) == "screenshots"@)
}

/// The screenshot heuristic. `mime` is accepted for the signature of the
/// probe but does not change the answer.
pub fn looks_like_screenshot(path: &str, mime: &str) -> (b: bool)
    ensures
        b == spec_looks_like_screenshot(path@),
{
    let name = match file_name_of(path) {
        Some(n) => lower_ascii(&chars_of(n.as_str())),
        None => Vec::new(),
    };
    if starts_with_lit(&name, "screenshot") || starts_with_lit(&name, "screen shot") {
        return true;
    }
    match parent_of(path) {
        Some(q) => match file_name_of(q.as_str()) {
            Some(pn) => {
                let l = lower_ascii(&chars_of(pn.as_str()));
                eq_lit(&l, "screenshots")
            },
            None => false,
        },
        None => false,
    }
}


// ------------------------------------------------------------------ EXIF text

/// Number of leading `c` characters of `s`.
pub open spec fn spec_lead_char(s: Seq<char>, c: char) -> int
    decreases s.len(),
{
    if s.len() == 0 || s[0] != c {
        0
    } else {
        1 + spec_lead_char(s.drop_first(), c)
    }
}

/// Number of trailing `c` characters of `s`.
pub open spec fn spec_trail_char(s: Seq<char>, c: char) -> int
    decreases s.len(),
{
    if s.len() == 0 || s.last() != c {
        0
    } else {
        1 + spec_trail_char(s.drop_last(), c)
    }
}

/// `s` without leading and trailing `"` characters (`str::trim_matches`).
pub open spec fn spec_trim_quotes(s: Seq<char>) -> Seq<char> {
    let t = s.subrange(spec_lead_char(s, '"'), s.len() as int);
    t.subrange(0, t.len() - spec_trail_char(t, '"'))
}

proof fn lemma_lead_char(s: Seq<char>, c: char)
    ensures
        0 <= spec_lead_char(s, c) <= s.len(),
    decreases s.len(),
{
    if s.len() > 0 && s[0] == c {
        lemma_lead_char(s.drop_first(), c);
    }
}

proof fn lemma_trail_char(s: Seq<char>, c: char)
    ensures
        0 <= spec_trail_char(s, c) <= s.len(),
    decreases s.len(),
{
    if s.len() > 0 && s.last() == c {
        lemma_trail_char(s.drop_last(), c);
    }
}

/// `s` without its surrounding quotes.
pub fn trim_quotes(s: &str) -> (out: String)
    ensures
        out@ == spec_trim_quotes(s@),
{
    let v = chars_of(s);
    let to = v.len();
    let mut a: usize = 0;
    assert(v@.subrange(0, to as int) =~= v@);
    while a < to && v[a] == '"'
        invariant
            a <= to,
            to == v@.len(),
            v@ == s@,
            spec_lead_char(s@, '"') == a + spec_lead_char(v@.subrange(a as int, to as int), '"'),
        decreases to - a,
    {
        assert(v@.subrange(a as int, to as int).drop_first() =~= v@.subrange(a + 1, to as int));
        a = a + 1;
    }
    assert(spec_lead_char(v@.subrange(a as int, to as int), '"') == 0);
    assert(s@.subrange(a as int, s@.len() as int) =~= v@.subrange(a as int, to as int));
    let ghost t = v@.subrange(a as int, to as int);
    let mut b: usize = to;
    while b > a && v[b - 1] == '"'
        invariant
            a <= b <= to,
            to == v@.len(),
            t == v@.subrange(a as int, to as int),
            spec_trail_char(t, '"') == (to - b) + spec_trail_char(v@.subrange(a as int, b as int), '"'),
        decreases b - a,
    {
        assert(v@.subrange(a as int, b as int).drop_last() =~= v@.subrange(a as int, b - 1));
        b = b - 1;
    }
    assert(spec_trail_char(v@.subrange(a as int, b as int), '"') == 0);
    assert(t.subrange(0, t.len() - spec_trail_char(t, '"')) =~= v@.subrange(a as int, b as int));
    string_of(&slice_to_vec(&v, a, b))
}

/// A text field of EXIF (the camera model, the lens) as the vault keeps
/// it: without surrounding quotes, and absent when nothing is left.
pub fn clean_exif_text(raw: &str) -> (r: Option<String>)
    ensures
        match r {
            Some(t) => t@ == spec_trim_quotes(raw@) && t@.len() > 0,
            None => spec_trim_quotes(raw@).len() == 0,
        },
{
    let t = trim_quotes(raw);
    let n = chars_of(t.as_str());
    if n.len() == 0 {
        None
    } else {
        Some(t)
    }
}

/// The UNIX time of a date-time text read in the given `strftime` format,
/// taken as UTC.
pub uninterp spec fn spec_parse_datetime(s: Seq<char>, fmt: Seq<char>) -> Option<i64>;

/// Calls `chrono::NaiveDateTime::parse_from_str` and reads the UNIX time of
/// the result taken as UTC. The contract claims only that the result is the
/// function of the text and the format named `spec_parse_datetime`.
#[verifier::external_body]
fn parse_datetime(s: &str, fmt: &str) -> (r: Option<i64>)
    ensures
        r == spec_parse_datetime(s@, fmt@),
{
    chrono::NaiveDateTime::parse_from_str(s, fmt).ok().map(|d| d.and_utc().timestamp())
}

/// The time an EXIF date-time field gives, unquoted and read as
/// `YYYY-MM-DD hh:mm:ss` or else as `YYYY:MM:DD hh:mm:ss`.
pub open spec fn spec_exif_time(raw: Seq<char>) -> Option<i64> {
    let t = spec_trim_quotes(raw);
    match spec_parse_datetime(t, "%Y-%m-%d %H:%M:%S"@) {
        Some(x) => Some(x),
        None => spec_parse_datetime(t, "%Y:%m:%d %H:%M:%S"@),
    }
}

/// The time an EXIF date-time field gives.
pub fn exif_time(raw: &str) -> (r: Option<i64>)
    ensures
        r == spec_exif_time(raw@),
{
    let t = trim_quotes(raw);
    match parse_datetime(t.as_str(), "%Y-%m-%d %H:%M:%S") {
        Some(x) => Some(x),
        None => parse_datetime(t.as_str(), "%Y:%m:%d %H:%M:%S"),
    }
}

/// The capture time of a photo: `DateTimeOriginal` when it reads as a
/// time, else `DateTime`.
pub open spec fn spec_taken_at(original: Option<Seq<char>>, modified: Option<Seq<char>>) -> Option<i64> {
    let first = match original {
        Some(o) => spec_exif_time(o),
        None => None,
    };
    match first {
        Some(x) => Some(x),
        None => match modified {
            Some(m) => spec_exif_time(m),
            None => None,
        },
    }
}

/// The capture time of a photo from its `DateTimeOriginal` and `DateTime`
/// fields, when present.
pub fn taken_at(original: Option<&str>, modified: Option<&str>) -> (r: Option<i64>)
    ensures
        r == spec_taken_at(
            match original {
                Some(o) => Some(o@),
                None => None,
            },
            match modified {
                Some(m) => Some(m@),
                None => None,
            },
        ),
{
    let first = match original {
        Some(o) => exif_time(o),
        None => None,
    };
    match first {
        Some(x) => Some(x),
        None => match modified {
            Some(m) => exif_time(m),
            None => None,
        },
    }
}

/// The day since 1970-01-01 of a UNIX time, dividing by 86 400 and
/// truncating toward zero as integer division does.
pub open spec fn spec_day_of(ts: i64) -> int {
    if ts >= 0 {
        ts / 86400
    } else {
        -((-ts) / 86400)
    }
}

/// The day of a capture time: the plaintext `taken_at_utc_day` column.
pub fn taken_at_utc_day(ts: i64) -> (d: i64)
    ensures
        d == spec_day_of(ts),
{
    let n: i128 = ts as i128;
    if n >= 0 {
        (n / 86400) as i64
    } else {
        let m: i128 = 0 - n;
        let q: i128 = m / 86400;
        (0 - q) as i64
    }
}


/// Which probe reads the dimensions of a file.
#[derive(Debug, Clone, Copy, PartialEq, Eq)]
pub enum DimensionProbe {
    /// None runs.
    Skip,
    /// The HEIF container's primary image (libheif).
    Heif,
    /// The image header, as the `image` crate reads it.
    Image,
    /// The video container (ffmpeg).
    Video,
    /// The RAW decoder.
    Raw,
}

/// What probing a file does, by its MIME type and extension.
#[derive(Debug, Clone, Copy, PartialEq, Eq)]
pub struct ProbePlan {
    pub dimensions: DimensionProbe,
    /// Whether the EXIF block is read.
    pub exif: bool,
    /// Whether the EXIF summary is just the MIME type (videos).
    pub mime_only_json: bool,
    /// Whether the file is flagged as RAW.
    pub is_raw: bool,
}

/// The probes that run for a file of type `mime` whose lowercased extension
/// is `ext`: for an image, the HEIF probe (HEIC and HEIF) or the image
/// header, then EXIF; for a video, the video probe, the EXIF summary being
/// the MIME type; else, for a RAW extension, the RAW probe and the RAW flag;
/// else nothing.
pub open spec fn spec_probe_plan(mime: Seq<char>, ext: Option<Seq<char>>) -> ProbePlan {
    if "image/"@.is_prefix_of(mime) {
        ProbePlan {
            dimensions: if mime == "image/heic"@ || mime == "image/heif"@ {
                DimensionProbe::Heif
            } else {
                DimensionProbe::Image
            },
            exif: true,
            mime_only_json: false,
            is_raw: false,
        }
    } else if "video/"@.is_prefix_of(mime) {
        ProbePlan { dimensions: DimensionProbe::Video, exif: false, mime_only_json: true, is_raw: false }
    } else if ext matches Some(e) && crate::media::pairs::spec_is_raw_ext(e) {
        ProbePlan { dimensions: DimensionProbe::Raw, exif: false, mime_only_json: false, is_raw: true }
    } else {
        ProbePlan { dimensions: DimensionProbe::Skip, exif: false, mime_only_json: false, is_raw: false }
    }
}

/// The probes that run for a file of type `mime` whose lowercased extension
/// is `ext`.
pub fn probe_plan(mime: &str, ext: Option<&[char]>) -> (p: ProbePlan)
    ensures
        p == spec_probe_plan(
            mime@,
            match ext {
                Some(e) => Some(e@),
                None => None,
            },
        ),
{
    let m = chars_of(mime);
    if starts_with_lit(&m, "image/") {
        let heif = eq_lit(&m, "image/heic") || eq_lit(&m, "image/heif");
        ProbePlan {
            dimensions: if heif {
                DimensionProbe::Heif
            } else {
                DimensionProbe::Image
            },
            exif: true,
            mime_only_json: false,
            is_raw: false,
        }
    } else if starts_with_lit(&m, "video/") {
        ProbePlan { dimensions: DimensionProbe::Video, exif: false, mime_only_json: true, is_raw: false }
    } else {
        let raw = match ext {
            Some(e) => crate::media::pairs::is_raw_ext(e),
            None => false,
        };
        if raw {
            ProbePlan { dimensions: DimensionProbe::Raw, exif: false, mime_only_json: false, is_raw: true }
        } else {
            ProbePlan { dimensions: DimensionProbe::Skip, exif: false, mime_only_json: false, is_raw: false }
        }
    }
}

/// Law: the MIME type taken from a lowercased extension: `heic`/`heif` are
/// HEIC, `jpg`/`jpeg` JPEG, `png`, `gif` and `webp` their own image types,
/// `tif`/`tiff` TIFF, `mp4`/`m4v` MP4 video, `mov` QuickTime, `mkv`
/// Matroska, `webm` WebM; any other extension, or none, is an octet
/// stream. Content that `infer` recognises wins over the extension.
pub proof fn lemma_mime_table(e: Seq<char>, head: Seq<u8>)
    ensures
        (e == "heic"@ || e == "heif"@) ==> spec_mime_for_ext(Some(e)) == "image/heic"@,
        (e == "jpg"@ || e == "jpeg"@) ==> spec_mime_for_ext(Some(e)) == "image/jpeg"@,
        e == "png"@ ==> spec_mime_for_ext(Some(e)) == "image/png"@,
        e == "gif"@ ==> spec_mime_for_ext(Some(e)) == "image/gif"@,
        e == "webp"@ ==> spec_mime_for_ext(Some(e)) == "image/webp"@,
        (e == "tif"@ || e == "tiff"@) ==> spec_mime_for_ext(Some(e)) == "image/tiff"@,
        (e == "mp4"@ || e == "m4v"@) ==> spec_mime_for_ext(Some(e)) == "video/mp4"@,
        e == "mov"@ ==> spec_mime_for_ext(Some(e)) == "video/quicktime"@,
        e == "mkv"@ ==> spec_mime_for_ext(Some(e)) == "video/x-matroska"@,
        e == "webm"@ ==> spec_mime_for_ext(Some(e)) == "video/webm"@,
        !(e == "heic"@ || e == "heif"@ || e == "jpg"@ || e == "jpeg"@ || e == "png"@ || e == "gif"@ || e == "webp"@
            || e == "tif"@ || e == "tiff"@ || e == "mp4"@ || e == "m4v"@ || e == "mov"@ || e == "mkv"@ || e
            == "webm"@) ==> spec_mime_for_ext(Some(e)) == "application/octet-stream"@,
        spec_mime_for_ext(None) == "application/octet-stream"@,
        spec_infer_mime(head) matches Some(m) ==> spec_sniff_mime(head, Some(e)) == m,
        spec_infer_mime(head) is None ==> spec_sniff_mime(head, Some(e)) == spec_mime_for_ext(Some(e)),
{
    reveal_strlit("heic");
    reveal_strlit("heif");
    reveal_strlit("jpg");
    reveal_strlit("jpeg");
    reveal_strlit("png");
    reveal_strlit("gif");
    reveal_strlit("webp");
    reveal_strlit("tif");
    reveal_strlit("tiff");
    reveal_strlit("mp4");
    reveal_strlit("m4v");
    reveal_strlit("mov");
    reveal_strlit("mkv");
    reveal_strlit("webm");
    if e == "heic"@ { assert(e.len() == 4 && e[0] == 'h' && e[1] == 'e' && e[2] == 'i' && e[3] == 'c'); }
    if e == "heif"@ { assert(e.len() == 4 && e[0] == 'h' && e[1] == 'e' && e[2] == 'i' && e[3] == 'f'); }
    if e == "jpg"@ { assert(e.len() == 3 && e[0] == 'j' && e[1] == 'p' && e[2] == 'g'); }
    if e == "jpeg"@ { assert(e.len() == 4 && e[0] == 'j' && e[1] == 'p' && e[2] == 'e' && e[3] == 'g'); }
    if e == "png"@ { assert(e.len() == 3 && e[0] == 'p' && e[1] == 'n' && e[2] == 'g'); }
    if e == "gif"@ { assert(e.len() == 3 && e[0] == 'g' && e[1] == 'i' && e[2] == 'f'); }
    if e == "webp"@ { assert(e.len() == 4 && e[0] == 'w' && e[1] == 'e' && e[2] == 'b' && e[3] == 'p'); }
    if e == "tif"@ { assert(e.len() == 3 && e[0] == 't' && e[1] == 'i' && e[2] == 'f'); }
    if e == "tiff"@ { assert(e.len() == 4 && e[0] == 't' && e[1] == 'i' && e[2] == 'f' && e[3] == 'f'); }
    if e == "mp4"@ { assert(e.len() == 3 && e[0] == 'm' && e[1] == 'p' && e[2] == '4'); }
    if e == "m4v"@ { assert(e.len() == 3 && e[0] == 'm' && e[1] == '4' && e[2] == 'v'); }
    if e == "mov"@ { assert(e.len() == 3 && e[0] == 'm' && e[1] == 'o' && e[2] == 'v'); }
    if e == "mkv"@ { assert(e.len() == 3 && e[0] == 'm' && e[1] == 'k' && e[2] == 'v'); }
    if e == "webm"@ { assert(e.len() == 4 && e[0] == 'w' && e[1] == 'e' && e[2] == 'b' && e[3] == 'm'); }
}

/// Law: a path looks like a screenshot exactly when its file name, in ASCII
/// lower case, begins with `screenshot` or `screen shot`, or its parent
/// directory is named `screenshots` in any ASCII case.
pub proof fn lemma_screenshot_rule(p: Seq<char>)
    ensures
        spec_looks_like_screenshot(p) <==> ((spec_file_name(p) matches Some(n) && ("screenshot"@.is_prefix_of(
            spec_lower_ascii(n),
        ) || "screen shot"@.is_prefix_of(spec_lower_ascii(n)))) || (spec_parent(p) matches Some(q) && spec_file_name(
            q,
        ) matches Some(pn) && spec_lower_ascii(pn) == "screenshots"@)),
{
    reveal_strlit("screenshot");
    reveal_strlit("screen shot");
    if spec_file_name(p) is None {
        assert(!"screenshot"@.is_prefix_of(Seq::<char>::empty()));
        assert(!"screen shot"@.is_prefix_of(Seq::<char>::empty()));
    }
}

/// Law: which probes run for a file. An image gets EXIF and its dimensions
/// from the HEIF probe when it is `image/heic` or `image/heif`, else from
/// its header; a video gets the video probe and a MIME-only summary;
/// anything else with a lowercased RAW extension (`cr2`, `cr3`, `nef`,
/// `arw`, `dng`, `raf`, `orf`, `rw2`) is flagged RAW and gets the RAW probe;
/// everything else gets none.
pub proof fn lemma_probe_plan_rule(mime: Seq<char>, ext: Option<Seq<char>>)
    ensures
        "image/"@.is_prefix_of(mime) ==> spec_probe_plan(mime, ext) == (ProbePlan {
            dimensions: if mime == "image/heic"@ || mime == "image/heif"@ {
                DimensionProbe::Heif
            } else {
                DimensionProbe::Image
            },
            exif: true,
            mime_only_json: false,
            is_raw: false,
        }),
        !"image/"@.is_prefix_of(mime) && "video/"@.is_prefix_of(mime) ==> spec_probe_plan(mime, ext) == (ProbePlan {
            dimensions: DimensionProbe::Video,
            exif: false,
            mime_only_json: true,
            is_raw: false,
        }),
        !"image/"@.is_prefix_of(mime) && !"video/"@.is_prefix_of(mime) ==> spec_probe_plan(mime, ext) == (if ext
            matches Some(e) && (e == "cr2"@ || e == "cr3"@ || e == "nef"@ || e == "arw"@ || e == "dng"@ || e == "raf"@
            || e == "orf"@ || e == "rw2"@) {
            ProbePlan { dimensions: DimensionProbe::Raw, exif: false, mime_only_json: false, is_raw: true }
        } else {
            ProbePlan { dimensions: DimensionProbe::Skip, exif: false, mime_only_json: false, is_raw: false }
        }),
{
}

proof fn lemma_lead_char_props(s: Seq<char>, c: char)
    ensures
        0 <= spec_lead_char(s, c) <= s.len(),
        forall|i: int| 0 <= i < spec_lead_char(s, c) ==> s[i] == c,
        spec_lead_char(s, c) < s.len() ==> s[spec_lead_char(s, c)] != c,
    decreases s.len(),
{
    if s.len() > 0 && s[0] == c {
        lemma_lead_char_props(s.drop_first(), c);
        assert forall|i: int| 0 <= i < spec_lead_char(s, c) implies s[i] == c by {
            if i > 0 {
                assert(s[i] == s.drop_first()[i - 1]);
            }
        }
    }
}

proof fn lemma_trail_char_props(s: Seq<char>, c: char)
    ensures
        0 <= spec_trail_char(s, c) <= s.len(),
        forall|i: int| s.len() - spec_trail_char(s, c) <= i < s.len() ==> s[i] == c,
        spec_trail_char(s, c) < s.len() ==> s[s.len() - 1 - spec_trail_char(s, c)] != c,
    decreases s.len(),
{
    if s.len() > 0 && s.last() == c {
        lemma_trail_char_props(s.drop_last(), c);
        assert forall|i: int| s.len() - spec_trail_char(s, c) <= i < s.len() implies s[i] == c by {
            if i < s.len() - 1 {
                assert(s[i] == s.drop_last()[i]);
            }
        }
    }
}

/// Law: taking the quotes off an EXIF text removes every leading and
/// trailing `"` and nothing else: the text is some quotes, the result, and
/// some quotes, and the result neither starts nor ends with a quote.
pub proof fn lemma_trim_quotes_rule(s: Seq<char>)
    ensures
        exists|a: int, b: int| #![trigger s.subrange(0, a), s.subrange(s.len() - b, s.len() as int)] 0 <= a && 0 <= b && a + b + spec_trim_quotes(s).len() == s.len() && s =~= s.subrange(
            0,
            a,
        ) + spec_trim_quotes(s) + s.subrange(s.len() - b, s.len() as int) && (forall|i: int| 0 <= i < a ==> s[i]
            == '"') && (forall|i: int| s.len() - b <= i < s.len() ==> s[i] == '"'),
        spec_trim_quotes(s).len() > 0 ==> spec_trim_quotes(s)[0] != '"' && spec_trim_quotes(s).last() != '"',
{
    let a = spec_lead_char(s, '"');
    lemma_lead_char_props(s, '"');
    let t = s.subrange(a, s.len() as int);
    lemma_trail_char_props(t, '"');
    let b = spec_trail_char(t, '"');
    let r = spec_trim_quotes(s);
    assert(r == t.subrange(0, t.len() - b));
    assert(s =~= s.subrange(0, a) + r + s.subrange(s.len() - b, s.len() as int));
    assert forall|i: int| s.len() - b <= i < s.len() implies s[i] == '"' by {
        assert(s[i] == t[i - a]);
    }
    if r.len() > 0 {
        assert(r[0] == t[0]);
        assert(r.last() == t[t.len() - 1 - b]);
    }
}

/// Law: the day of a capture time divides the UNIX time by 86 400 seconds,
/// truncating toward zero: the time lies within a day of the start of that
/// day, after it for times at or after the epoch and before it for earlier
/// times.
pub proof fn lemma_day_of_rule(ts: i64)
    ensures
        ts >= 0 ==> 0 <= ts - spec_day_of(ts) * 86400 < 86400,
        ts < 0 ==> -86400 < ts - spec_day_of(ts) * 86400 <= 0,
{
    if ts >= 0 {
        vstd::arithmetic::div_mod::lemma_fundamental_div_mod(ts as int, 86400);
    } else {
        vstd::arithmetic::div_mod::lemma_fundamental_div_mod(-(ts as int), 86400);
    }
}

/// Law: a capture time is read from the `DateTimeOriginal` text, unquoted,
/// as `%Y-%m-%d %H:%M:%S` or else as `%Y:%m:%d %H:%M:%S`; only where that
/// gives nothing is the `DateTime` text read the same way.
pub proof fn lemma_capture_time_rule(original: Option<Seq<char>>, modified: Option<Seq<char>>, raw: Seq<char>)
    ensures
        spec_exif_time(raw) == match spec_parse_datetime(spec_trim_quotes(raw), "%Y-%m-%d %H:%M:%S"@) {
            Some(x) => Some(x),
            None => spec_parse_datetime(spec_trim_quotes(raw), "%Y:%m:%d %H:%M:%S"@),
        },
        (original matches Some(o) && spec_exif_time(o) is Some) ==> spec_taken_at(original, modified) == spec_exif_time(
            original->0,
        ),
        !(original matches Some(o) && spec_exif_time(o) is Some) ==> spec_taken_at(original, modified) == match modified {
            Some(m) => spec_exif_time(m),
            None => None,
        },
{
}

} // verus!
