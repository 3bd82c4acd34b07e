//! XMP sidecar extraction and rendering.
//!
//! A pragmatic subset of the XMP namespaces is read and written: `dc:title`,
//! `dc:description`, `dc:subject`, `xmp:CreateDate` (or
//! `photoshop:DateCreated`), `exif:GPSLatitude` / `exif:GPSLongitude`,
//! `photoshop:Instructions`, `mediavault:PersonNames` and
//! `mediavault:AlbumName`. The parser is a hand-rolled text scanner, not a
//! full XML reader: the fields it knows are extracted, the rest is ignored.
//!
//! Dates and GPS coordinates travel here as text: the date as written in the
//! packet (RFC 3339 when well-formed), the coordinates in XMP's
//! `deg,min.decN` form.

use crate::paths::{file_name_of, spec_extension, spec_file_name, spec_set_extension, with_extension};
use crate::text::{
    chars_of, concat, find_seq, lemma_find, push_chars, replace_all, slice_to_vec, spec_find,
    spec_replace, spec_trim, string_of, trim_range,
};
use vstd::prelude::*;

verus! {

/// The fields of an XMP packet that the vault round-trips, as text.
#[derive(Debug, Clone, PartialEq, Eq, Default)]
pub struct XmpText {
    /// `dc:title`.
    pub title: Option<String>,
    /// `dc:description`.
    pub description: Option<String>,
    /// `dc:subject` — tags.
    pub tags: Vec<String>,
    /// `xmp:CreateDate` or `photoshop:DateCreated`, as written.
    pub date_created: Option<String>,
    /// `exif:GPSLatitude` and `exif:GPSLongitude`, as written.
    pub gps: Option<(String, String)>,
    /// `photoshop:Instructions` — user notes.
    pub notes: Option<String>,
    /// `mediavault:PersonNames`.
    pub persons: Vec<String>,
    /// `mediavault:AlbumName`.
    pub album: Option<String>,
}

/// The view of an [`XmpText`].
pub struct SpecXmp {
    pub title: Option<Seq<char>>,
    pub description: Option<Seq<char>>,
    pub tags: Seq<Seq<char>>,
    pub date_created: Option<Seq<char>>,
    pub gps: Option<(Seq<char>, Seq<char>)>,
    pub notes: Option<Seq<char>>,
    pub persons: Seq<Seq<char>>,
    pub album: Option<Seq<char>>,
}

pub open spec fn ov(o: Option<String>) -> Option<Seq<char>> {
    match o {
        Some(s) => Some(s@),
        None => None,
    }
}

pub open spec fn sv(v: Seq<String>) -> Seq<Seq<char>> {
    v.map_values(|s: String| s@)
}

impl XmpText {
    pub open spec fn spec_view(&self) -> SpecXmp {
        SpecXmp {
            title: ov(self.title),
            description: ov(self.description),
            tags: sv(self.tags@),
            date_created: ov(self.date_created),
            gps: match self.gps {
                Some((a, b)) => Some((a@, b@)),
                None => None,
            },
            notes: ov(self.notes),
            persons: sv(self.persons@),
            album: ov(self.album),
        }
    }
}

// ------------------------------------------------------------------ escaping

/// XML entity decoding, replacement by replacement in this order:
/// `&lt;`, `&gt;`, `&quot;`, `&apos;`, and `&amp;` last, so that an escaped
/// `&` never joins the text after it into another entity.
pub open spec fn spec_decode_xml(s: Seq<char>) -> Seq<char> {
    spec_replace(
        spec_replace(
            spec_replace(
                spec_replace(spec_replace(s, "&lt;"@, "<"@), "&gt;"@, ">"@),
                "&quot;"@,
                "\""@,
            ),
            "&apos;"@,
            "'"@,
        ),
        "&amp;"@,
        "&"@,
    )
}

/// XML escaping, replacement by replacement in this order: `&`, `<`, `>`,
/// `"`, `'`.
pub open spec fn spec_encode_xml(s: Seq<char>) -> Seq<char> {
    spec_replace(
        spec_replace(
            spec_replace(spec_replace(spec_replace(s, "&"@, "&amp;"@), "<"@, "&lt;"@), ">"@, "&gt;"@),
            "\""@,
            "&quot;"@,
        ),
        "'"@,
        "&apos;"@,
    )
}

fn replace_lit(s: &[char], pat: &str, rep: &str) -> (out: Vec<char>)
    requires
        pat@.len() > 0,
    ensures
        out@ == spec_replace(s@, pat@, rep@),
{
    let p = chars_of(pat);
    let r = chars_of(rep);
    replace_all(s, &p, &r)
}

/// Decode the five predefined XML entities.
pub fn decode_xml(s: &[char]) -> (out: Vec<char>)
    ensures
        out@ == spec_decode_xml(s@),
{
    proof {
        reveal_strlit("&amp;");
        reveal_strlit("&lt;");
        reveal_strlit("&gt;");
        reveal_strlit("&quot;");
        reveal_strlit("&apos;");
    }
    let a = replace_lit(s, "&lt;", "<");
    let b = replace_lit(&a, "&gt;", ">");
    let c = replace_lit(&b, "&quot;", "\"");
    let d = replace_lit(&c, "&apos;", "'");
    replace_lit(&d, "&amp;", "&")
}

/// Escape `&`, `<`, `>`, `"` and `'` as XML entities.
pub fn encode_xml(s: &[char]) -> (out: Vec<char>)
    ensures
        out@ == spec_encode_xml(s@),
{
    proof {
        reveal_strlit("&");
        reveal_strlit("<");
        reveal_strlit(">");
        reveal_strlit("\"");
        reveal_strlit("'");
    }
    let a = replace_lit(s, "&", "&amp;");
    let b = replace_lit(&a, "<", "&lt;");
    let c = replace_lit(&b, ">", "&gt;");
    let d = replace_lit(&c, "\"", "&quot;");
    replace_lit(&d, "'", "&apos;")
}

// ---------------------------------------------------------------- extraction

/// `<tag>`.
pub open spec fn spec_open_tag(tag: Seq<char>) -> Seq<char> {
    "<"@ + tag + ">"@
}

/// `</tag>`.
pub open spec fn spec_close_tag(tag: Seq<char>) -> Seq<char> {
    "</"@ + tag + ">"@
}

/// The decoded, trimmed text between the first `<tag>` of `body` and the
/// first `</tag>` after it.
pub open spec fn spec_extract_simple(body: Seq<char>, tag: Seq<char>) -> Option<Seq<char>> {
    let open = spec_open_tag(tag);
    let i = spec_find(body, open);
    if i < 0 {
        None
    } else {
        let after = body.subrange(i + open.len(), body.len() as int);
        let j = spec_find(after, spec_close_tag(tag));
        if j < 0 {
            None
        } else {
            Some(spec_decode_xml(spec_trim(after.subrange(0, j))))
        }
    }
}

/// The decoded value of the first attribute `tag="..."` of `body`.
pub open spec fn spec_extract_attr(body: Seq<char>, tag: Seq<char>) -> Option<Seq<char>> {
    let needle = tag + "=\""@;
    let i = spec_find(body, needle);
    if i < 0 {
        None
    } else {
        let rest = body.subrange(i + needle.len(), body.len() as int);
        let end = spec_find(rest, "\""@);
        if end < 0 {
            None
        } else {
            Some(spec_decode_xml(rest.subrange(0, end)))
        }
    }
}

/// Where the first `<rdf:li ...>text</rdf:li>` item of `inner` lies: the
/// start of its text, the end of its text and the index after its closing
/// tag; `None` when there is no complete item.
pub open spec fn spec_li_bounds(inner: Seq<char>) -> Option<(int, int, int)> {
    let start = spec_find(inner, "<rdf:li"@);
    if start < 0 {
        None
    } else {
        let after = inner.subrange(start, inner.len() as int);
        let close = spec_find(after, ">"@);
        if close < 0 {
            None
        } else {
            let t0 = start + close + 1;
            let after2 = inner.subrange(t0, inner.len() as int);
            let end = spec_find(after2, "</rdf:li>"@);
            if end < 0 {
                None
            } else {
                Some((t0, t0 + end, t0 + end + "</rdf:li>"@.len()))
            }
        }
    }
}

pub proof fn lemma_li_bounds(inner: Seq<char>)
    ensures
        spec_li_bounds(inner) matches Some((a, b, c)) ==> 0 < a <= b < c <= inner.len(),
{
    reveal_strlit("<rdf:li");
    reveal_strlit(">");
    reveal_strlit("</rdf:li>");
    let start = spec_find(inner, "<rdf:li"@);
    lemma_find(inner, "<rdf:li"@);
    if start >= 0 {
        let after = inner.subrange(start, inner.len() as int);
        lemma_find(after, ">"@);
        let close = spec_find(after, ">"@);
        if close >= 0 {
            let t0 = start + close + 1;
            let after2 = inner.subrange(t0, inner.len() as int);
            lemma_find(after2, "</rdf:li>"@);
        }
    }
}

/// The decoded, trimmed text of the first list item of `inner`.
pub open spec fn spec_first_li(inner: Seq<char>) -> Option<Seq<char>> {
    match spec_li_bounds(inner) {
        Some((a, b, _)) => Some(spec_decode_xml(spec_trim(inner.subrange(a, b)))),
        None => None,
    }
}

/// The decoded, trimmed texts of the list items of `rest`, in order.
pub open spec fn spec_li_items(rest: Seq<char>) -> Seq<Seq<char>>
    decreases rest.len(),
{
    match spec_li_bounds(rest) {
        Some((a, b, c)) => {
            proof { lemma_li_bounds(rest); }
            seq![spec_decode_xml(spec_trim(rest.subrange(a, b)))] + spec_li_items(
                rest.subrange(c, rest.len() as int),
            )
        },
        None => Seq::empty(),
    }
}

/// `<tag><rdf:Alt><rdf:li ...>text</rdf:li></rdf:Alt></tag>`: the first list
/// item's text, or the element's whole text when it has no list item.
pub open spec fn spec_extract_alt(body: Seq<char>, tag: Seq<char>) -> Option<Seq<char>> {
    match spec_extract_simple(body, tag) {
        None => None,
        Some(w) => match spec_first_li(w) {
            Some(v) => Some(v),
            None => Some(w),
        },
    }
}

/// `<tag><rdf:Bag><rdf:li>..</rdf:li>..</rdf:Bag></tag>`: the items' texts.
pub open spec fn spec_extract_bag(body: Seq<char>, tag: Seq<char>) -> Seq<Seq<char>> {
    match spec_extract_simple(body, tag) {
        None => Seq::empty(),
        Some(inner) => spec_li_items(inner),
    }
}

fn find_lit(hay: &[char], needle: &str) -> (r: Option<usize>)
    ensures
        match r {
            Some(k) => k as int == spec_find(hay@, needle@),
            None => spec_find(hay@, needle@) == -1,
        },
{
    let n = chars_of(needle);
    find_seq(hay, &n)
}

fn extract_simple(body: &[char], tag: &str) -> (r: Option<Vec<char>>)
    ensures
        match r {
            Some(v) => spec_extract_simple(body@, tag@) == Some(v@),
            None => spec_extract_simple(body@, tag@) is None,
        },
{
    let t = chars_of(tag);
    let lt = chars_of("<");
    let gt = chars_of(">");
    let lts = chars_of("</");
    let o1 = concat(&lt, &t);
    let open = concat(&o1, &gt);
    let c1 = concat(&lts, &t);
    let close = concat(&c1, &gt);
    proof { lemma_find(body@, open@); }
    let i = match find_seq(body, &open) {
        Some(i) => i,
        None => return None,
    };
    assert(i + open@.len() <= body@.len());
    assert(i + open.len() <= body.len());
    let after = slice_to_vec(body, i + open.len(), body.len());
    proof { lemma_find(after@, close@); }
    let j = match find_seq(&after, &close) {
        Some(j) => j,
        None => return None,
    };
    let raw = trim_range(&after, 0, j);
    Some(decode_xml(&raw))
}

fn extract_attr(body: &[char], tag: &str) -> (r: Option<Vec<char>>)
    ensures
        match r {
            Some(v) => spec_extract_attr(body@, tag@) == Some(v@),
            None => spec_extract_attr(body@, tag@) is None,
        },
{
    let t = chars_of(tag);
    let q = chars_of("=\"");
    let needle = concat(&t, &q);
    proof { lemma_find(body@, needle@); }
    let i = match find_seq(body, &needle) {
        Some(i) => i,
        None => return None,
    };
    assert(i + needle.len() <= body.len());
    let rest = slice_to_vec(body, i + needle.len(), body.len());
    proof { lemma_find(rest@, "\""@); }
    let end = match find_lit(&rest, "\"") {
        Some(e) => e,
        None => return None,
    };
    let raw = slice_to_vec(&rest, 0, end);
    Some(decode_xml(&raw))
}

fn li_bounds(inner: &[char]) -> (r: Option<(usize, usize, usize)>)
    ensures
        match r {
            Some((a, b, c)) => spec_li_bounds(inner@) == Some((a as int, b as int, c as int)),
            None => spec_li_bounds(inner@) is None,
        },
{
    proof {
        reveal_strlit("<rdf:li");
        reveal_strlit(">");
        reveal_strlit("</rdf:li>");
        lemma_find(inner@, "<rdf:li"@);
    }
    let start = match find_lit(inner, "<rdf:li") {
        Some(s) => s,
        None => return None,
    };
    let after = slice_to_vec(inner, start, inner.len());
    proof { lemma_find(after@, ">"@); }
    let close = match find_lit(&after, ">") {
        Some(c) => c,
        None => return None,
    };
    let t0 = start + close + 1;
    let after2 = slice_to_vec(inner, t0, inner.len());
    proof { lemma_find(after2@, "</rdf:li>"@); }
    let end = match find_lit(&after2, "</rdf:li>") {
        Some(e) => e,
        None => return None,
    };
    Some((t0, t0 + end, t0 + end + 9))
}

fn extract_first_li(inner: &[char]) -> (r: Option<Vec<char>>)
    ensures
        match r {
            Some(v) => spec_first_li(inner@) == Some(v@),
            None => spec_first_li(inner@) is None,
        },
{
    proof { lemma_li_bounds(inner@); }
    match li_bounds(inner) {
        Some((a, b, _)) => {
            let raw = trim_range(inner, a, b);
            Some(decode_xml(&raw))
        },
        None => None,
    }
}

fn extract_alt(body: &[char], tag: &str) -> (r: Option<Vec<char>>)
    ensures
        match r {
            Some(v) => spec_extract_alt(body@, tag@) == Some(v@),
            None => spec_extract_alt(body@, tag@) is None,
        },
{
    let w = match extract_simple(body, tag) {
        Some(w) => w,
        None => return None,
    };
    match extract_first_li(&w) {
        Some(v) => Some(v),
        None => Some(w),
    }
}

fn extract_bag(body: &[char], tag: &str) -> (out: Vec<String>)
    ensures
        sv(out@) == spec_extract_bag(body@, tag@),
{
    let inner = match extract_simple(body, tag) {
        Some(v) => v,
        None => {
            assert(sv(Seq::<String>::empty()) =~= Seq::<Seq<char>>::empty());
            return Vec::new();
        },
    };
    let mut out: Vec<String> = Vec::new();
    let mut pos: usize = 0;
    assert(inner@.subrange(0, inner@.len() as int) =~= inner@);
    assert(sv(out@) + spec_li_items(inner@) =~= spec_li_items(inner@));
    loop
        invariant
            pos <= inner@.len(),
            sv(out@) + spec_li_items(inner@.subrange(pos as int, inner@.len() as int))
                == spec_li_items(inner@),
        ensures
            sv(out@) == spec_li_items(inner@),
        decreases inner@.len() - pos,
    {
        let rest = slice_to_vec(&inner, pos, inner.len());
        proof { lemma_li_bounds(rest@); }
        match li_bounds(&rest) {
            Some((a, b, c)) => {
                let raw = trim_range(&rest, a, b);
                let item = decode_xml(&raw);
                let ghost before = sv(out@);
                out.push(string_of(&item));
                assert(sv(out@) =~= before.push(item@));
                assert(rest@.subrange(c as int, rest@.len() as int) =~= inner@.subrange(
                    pos + c,
                    inner@.len() as int,
                ));
                assert(sv(out@) + spec_li_items(inner@.subrange(pos + c, inner@.len() as int))
                    =~= before + (seq![item@] + spec_li_items(rest@.subrange(c as int, rest@.len() as int))));
                pos = pos + c;
            },
            None => {
                assert(sv(out@) =~= sv(out@) + spec_li_items(rest@));
                break;
            },
        }
    }
    out
}

} // verus!

verus! {

// ------------------------------------------------------------------ parsing

pub open spec fn or_else(a: Option<Seq<char>>, b: Option<Seq<char>>) -> Option<Seq<char>> {
    match a {
        Some(x) => Some(x),
        None => b,
    }
}

/// What [`parse`] extracts from an XMP packet.
pub open spec fn spec_parse(body: Seq<char>) -> SpecXmp {
    let lat = or_else(
        spec_extract_attr(body, "exif:GPSLatitude"@),
        spec_extract_simple(body, "exif:GPSLatitude"@),
    );
    let lon = or_else(
        spec_extract_attr(body, "exif:GPSLongitude"@),
        spec_extract_simple(body, "exif:GPSLongitude"@),
    );
    SpecXmp {
        title: spec_extract_alt(body, "dc:title"@),
        description: spec_extract_alt(body, "dc:description"@),
        tags: spec_extract_bag(body, "dc:subject"@),
        date_created: or_else(
            or_else(
                or_else(
                    spec_extract_simple(body, "xmp:CreateDate"@),
                    spec_extract_attr(body, "xmp:CreateDate"@),
                ),
                spec_extract_simple(body, "photoshop:DateCreated"@),
            ),
            spec_extract_attr(body, "photoshop:DateCreated"@),
        ),
        gps: match (lat, lon) {
            (Some(a), Some(b)) => Some((a, b)),
            _ => None,
        },
        notes: or_else(
            spec_extract_simple(body, "photoshop:Instructions"@),
            spec_extract_attr(body, "photoshop:Instructions"@),
        ),
        persons: spec_extract_bag(body, "mediavault:PersonNames"@),
        album: or_else(
            spec_extract_simple(body, "mediavault:AlbumName"@),
            spec_extract_attr(body, "mediavault:AlbumName"@),
        ),
    }
}

fn to_string_opt(o: Option<Vec<char>>) -> (r: Option<String>)
    ensures
        ov(r) == match o {
            Some(v) => Some(v@),
            None => None,
        },
{
    match o {
        Some(v) => Some(string_of(&v)),
        None => None,
    }
}

fn first_of(a: Option<Vec<char>>, b: Option<Vec<char>>) -> (r: Option<Vec<char>>)
    ensures
        match r {
            Some(v) => or_else(
                match a {
                    Some(x) => Some(x@),
                    None => None,
                },
                match b {
                    Some(x) => Some(x@),
                    None => None,
                },
            ) == Some(v@),
            None => a is None && b is None,
        },
{
    match a {
        Some(x) => Some(x),
        None => b,
    }
}

/// Extract the known fields from the text of an XMP packet.
pub fn parse(body: &str) -> (x: XmpText)
    ensures
        x.spec_view() == spec_parse(body@),
{
    let b = chars_of(body);
    let title = to_string_opt(extract_alt(&b, "dc:title"));
    let description = to_string_opt(extract_alt(&b, "dc:description"));
    let tags = extract_bag(&b, "dc:subject");
    let notes = to_string_opt(
        first_of(extract_simple(&b, "photoshop:Instructions"), extract_attr(&b, "photoshop:Instructions")),
    );
    let d1 = first_of(extract_simple(&b, "xmp:CreateDate"), extract_attr(&b, "xmp:CreateDate"));
    let d2 = first_of(d1, extract_simple(&b, "photoshop:DateCreated"));
    let d3 = first_of(d2, extract_attr(&b, "photoshop:DateCreated"));
    let date_created = to_string_opt(d3);
    let lat = first_of(extract_attr(&b, "exif:GPSLatitude"), extract_simple(&b, "exif:GPSLatitude"));
    let lon = first_of(extract_attr(&b, "exif:GPSLongitude"), extract_simple(&b, "exif:GPSLongitude"));
    let gps = match (lat, lon) {
        (Some(a), Some(o)) => Some((string_of(&a), string_of(&o))),
        _ => None,
    };
    let persons = extract_bag(&b, "mediavault:PersonNames");
    let album = to_string_opt(
        first_of(extract_simple(&b, "mediavault:AlbumName"), extract_attr(&b, "mediavault:AlbumName")),
    );
    let x = XmpText { title, description, tags, date_created, gps, notes, persons, album };
    assert(x.spec_view().gps == spec_parse(body@).gps);
    x
}

} // verus!

verus! {

// ------------------------------------------------------------------ rendering

/// One attribute line of the `rdf:Description` element.
pub open spec fn spec_attr_line(key: Seq<char>, value: Seq<char>) -> Seq<char> {
    "\n        "@ + key + "=\""@ + value + "\""@
}

/// One `rdf:li` line of a bag.
pub open spec fn spec_li_lines(items: Seq<Seq<char>>) -> Seq<char>
    decreases items.len(),
{
    if items.len() == 0 {
        Seq::empty()
    } else {
        spec_li_lines(items.drop_last()) + "        <rdf:li>"@ + spec_encode_xml(items.last())
            + "</rdf:li>\n"@
    }
}

/// The GPS attribute lines.
pub open spec fn spec_gps_lines(x: SpecXmp) -> Seq<char> {
    match x.gps {
        Some((la, lo)) => spec_attr_line("exif:GPSLatitude"@, la) + spec_attr_line(
            "exif:GPSLongitude"@,
            lo,
        ),
        None => Seq::empty(),
    }
}

/// The album attribute line.
pub open spec fn spec_album_line(x: SpecXmp) -> Seq<char> {
    match x.album {
        Some(a) => spec_attr_line("mediavault:AlbumName"@, spec_encode_xml(a)),
        None => Seq::empty(),
    }
}

/// The notes attribute line.
pub open spec fn spec_notes_line(x: SpecXmp) -> Seq<char> {
    match x.notes {
        Some(n) => spec_attr_line("photoshop:Instructions"@, spec_encode_xml(n)),
        None => Seq::empty(),
    }
}

/// The date attribute line.
pub open spec fn spec_date_line(x: SpecXmp) -> Seq<char> {
    match x.date_created {
        Some(d) => spec_attr_line("xmp:CreateDate"@, d),
        None => Seq::empty(),
    }
}

/// The attributes, in the order of their keys: GPS, album, notes, date.
pub open spec fn spec_attrs(x: SpecXmp) -> Seq<char> {
    spec_gps_lines(x) + spec_album_line(x) + spec_notes_line(x) + spec_date_line(x)
}

pub open spec fn spec_header() -> Seq<char> {
    "<?xpacket begin=\"\u{feff}\" id=\"W5M0MpCehiHzreSzNTczkc9d\"?>\n<x:xmpmeta xmlns:x=\"adobe:ns:meta/\">\n  <rdf:RDF xmlns:rdf=\"http://www.w3.org/1999/02/22-rdf-syntax-ns#\">\n    <rdf:Description rdf:about=\"\"\n        xmlns:dc=\"http://purl.org/dc/elements/1.1/\"\n        xmlns:xmp=\"http://ns.adobe.com/xap/1.0/\"\n        xmlns:photoshop=\"http://ns.adobe.com/photoshop/1.0/\"\n        xmlns:exif=\"http://ns.adobe.com/exif/1.0/\"\n        xmlns:mediavault=\"https://mediavault.dev/ns/1.0/\""@
}

pub open spec fn spec_footer() -> Seq<char> {
    "    </rdf:Description>\n  </rdf:RDF>\n</x:xmpmeta>\n<?xpacket end=\"w\"?>\n"@
}

/// The title element.
pub open spec fn spec_title_element(x: SpecXmp) -> Seq<char> {
    match x.title {
        Some(t) => "      <dc:title><rdf:Alt><rdf:li xml:lang=\"x-default\">"@ + spec_encode_xml(t)
            + "</rdf:li></rdf:Alt></dc:title>\n"@,
        None => Seq::empty(),
    }
}

/// The description element.
pub open spec fn spec_description_element(x: SpecXmp) -> Seq<char> {
    match x.description {
        Some(d) => "      <dc:description><rdf:Alt><rdf:li xml:lang=\"x-default\">"@ + spec_encode_xml(d)
            + "</rdf:li></rdf:Alt></dc:description>\n"@,
        None => Seq::empty(),
    }
}

/// The subject element, with the tags.
pub open spec fn spec_subject_element(x: SpecXmp) -> Seq<char> {
    if x.tags.len() > 0 {
        "      <dc:subject><rdf:Bag>\n"@ + spec_li_lines(x.tags) + "      </rdf:Bag></dc:subject>\n"@
    } else {
        Seq::empty()
    }
}

/// The persons element.
pub open spec fn spec_persons_element(x: SpecXmp) -> Seq<char> {
    if x.persons.len() > 0 {
        "      <mediavault:PersonNames><rdf:Bag>\n"@ + spec_li_lines(x.persons)
            + "      </rdf:Bag></mediavault:PersonNames>\n"@
    } else {
        Seq::empty()
    }
}

/// The body elements: title, description, tags, persons.
pub open spec fn spec_elements(x: SpecXmp) -> Seq<char> {
    spec_title_element(x) + spec_description_element(x) + spec_subject_element(x)
        + spec_persons_element(x)
}

/// The XMP packet [`render`] writes for `x`.
pub open spec fn spec_render(x: SpecXmp) -> Seq<char> {
    spec_header() + spec_attrs(x) + ">\n"@ + spec_elements(x) + spec_footer()
}

fn push_encoded(s: &mut String, v: &str)
    ensures
        final(s)@ == old(s)@ + spec_encode_xml(v@),
{
    let c = chars_of(v);
    let e = encode_xml(&c);
    push_chars(s, &e);
}

fn push_attr(s: &mut String, key: &str, value: &[char])
    ensures
        final(s)@ == old(s)@ + spec_attr_line(key@, value@),
{
    let ghost start = s@;
    s.push_str("\n        ");
    s.push_str(key);
    s.push_str("=\"");
    push_chars(s, value);
    s.push_str("\"");
    assert(s@ =~= start + spec_attr_line(key@, value@));
}

fn push_li_lines(s: &mut String, items: &Vec<String>)
    ensures
        final(s)@ == old(s)@ + spec_li_lines(sv(items@)),
{
    let ghost start = s@;
    let mut i: usize = 0;
    while i < items.len()
        invariant
            i <= items@.len(),
            s@ == start + spec_li_lines(sv(items@.subrange(0, i as int))),
        decreases items@.len() - i,
    {
        let ghost before = s@;
        s.push_str("        <rdf:li>");
        push_encoded(s, items[i].as_str());
        s.push_str("</rdf:li>\n");
        assert(sv(items@.subrange(0, i + 1)).drop_last() =~= sv(items@.subrange(0, i as int)));
        assert(sv(items@.subrange(0, i + 1)).last() == items@[i as int]@);
        i = i + 1;
        assert(s@ =~= start + spec_li_lines(sv(items@.subrange(0, i as int))));
    }
    assert(items@.subrange(0, items@.len() as int) =~= items@);
}

fn push_gps(s: &mut String, x: &XmpText)
    ensures
        final(s)@ == old(s)@ + match x.spec_view().gps {
            Some((la, lo)) => spec_attr_line("exif:GPSLatitude"@, la) + spec_attr_line(
                "exif:GPSLongitude"@,
                lo,
            ),
            None => Seq::empty(),
        },
{
    let ghost start = s@;
    match &x.gps {
        Some((la, lo)) => {
            let a = chars_of(la.as_str());
            let b = chars_of(lo.as_str());
            push_attr(s, "exif:GPSLatitude", &a);
            push_attr(s, "exif:GPSLongitude", &b);
            assert(s@ =~= start + (spec_attr_line("exif:GPSLatitude"@, a@) + spec_attr_line("exif:GPSLongitude"@, b@)));
        },
        None => {
            assert(s@ =~= start + Seq::<char>::empty());
        },
    }
}

fn push_encoded_attr(s: &mut String, key: &str, v: &Option<String>)
    ensures
        final(s)@ == old(s)@ + match ov(*v) {
            Some(a) => spec_attr_line(key@, spec_encode_xml(a)),
            None => Seq::empty(),
        },
{
    match v {
        Some(a) => {
            let c = chars_of(a.as_str());
            let e = encode_xml(&c);
            push_attr(s, key, &e);
        },
        None => {
            assert(s@ =~= s@ + Seq::<char>::empty());
        },
    }
}

fn push_attrs(s: &mut String, x: &XmpText)
    ensures
        final(s)@ == old(s)@ + spec_attrs(x.spec_view()),
{
    let ghost start = s@;
    push_gps(s, x);
    let ghost g1 = s@;
    push_encoded_attr(s, "mediavault:AlbumName", &x.album);
    let ghost g2 = s@;
    push_encoded_attr(s, "photoshop:Instructions", &x.notes);
    let ghost g3 = s@;
    match &x.date_created {
        Some(d) => {
            let c = chars_of(d.as_str());
            push_attr(s, "xmp:CreateDate", &c);
        },
        None => {},
    }
    assert(s@ =~= start + spec_attrs(x.spec_view()));
}

fn push_alt(s: &mut String, tag_open: &str, v: &Option<String>, tag_close: &str)
    ensures
        final(s)@ == old(s)@ + match ov(*v) {
            Some(t) => tag_open@ + spec_encode_xml(t) + tag_close@,
            None => Seq::empty(),
        },
{
    let ghost start = s@;
    match v {
        Some(t) => {
            s.push_str(tag_open);
            push_encoded(s, t.as_str());
            s.push_str(tag_close);
            assert(s@ =~= start + (tag_open@ + spec_encode_xml(t@) + tag_close@));
        },
        None => {
            assert(s@ =~= start + Seq::<char>::empty());
        },
    }
}

fn push_bag(s: &mut String, tag_open: &str, items: &Vec<String>, tag_close: &str)
    ensures
        final(s)@ == old(s)@ + if sv(items@).len() > 0 {
            tag_open@ + spec_li_lines(sv(items@)) + tag_close@
        } else {
            Seq::empty()
        },
{
    let ghost start = s@;
    if items.len() > 0 {
        s.push_str(tag_open);
        push_li_lines(s, items);
        s.push_str(tag_close);
        assert(s@ =~= start + (tag_open@ + spec_li_lines(sv(items@)) + tag_close@));
    } else {
        assert(s@ =~= start + Seq::<char>::empty());
    }
}

fn push_elements(s: &mut String, x: &XmpText)
    ensures
        final(s)@ == old(s)@ + spec_elements(x.spec_view()),
{
    let ghost start = s@;
    push_alt(
        s,
        "      <dc:title><rdf:Alt><rdf:li xml:lang=\"x-default\">",
        &x.title,
        "</rdf:li></rdf:Alt></dc:title>\n",
    );
    push_alt(
        s,
        "      <dc:description><rdf:Alt><rdf:li xml:lang=\"x-default\">",
        &x.description,
        "</rdf:li></rdf:Alt></dc:description>\n",
    );
    push_bag(s, "      <dc:subject><rdf:Bag>\n", &x.tags, "      </rdf:Bag></dc:subject>\n");
    push_bag(
        s,
        "      <mediavault:PersonNames><rdf:Bag>\n",
        &x.persons,
        "      </rdf:Bag></mediavault:PersonNames>\n",
    );
    assert(s@ =~= start + spec_elements(x.spec_view()));
}

/// Render `x` as a standards-compliant XMP packet.
pub fn render(x: &XmpText) -> (out: String)
    ensures
        out@ == spec_render(x.spec_view()),
{
    let mut s = String::new();
    s.push_str(
        "<?xpacket begin=\"\u{feff}\" id=\"W5M0MpCehiHzreSzNTczkc9d\"?>\n<x:xmpmeta xmlns:x=\"adobe:ns:meta/\">\n  <rdf:RDF xmlns:rdf=\"http://www.w3.org/1999/02/22-rdf-syntax-ns#\">\n    <rdf:Description rdf:about=\"\"\n        xmlns:dc=\"http://purl.org/dc/elements/1.1/\"\n        xmlns:xmp=\"http://ns.adobe.com/xap/1.0/\"\n        xmlns:photoshop=\"http://ns.adobe.com/photoshop/1.0/\"\n        xmlns:exif=\"http://ns.adobe.com/exif/1.0/\"\n        xmlns:mediavault=\"https://mediavault.dev/ns/1.0/\"",
    );
    assert(s@ =~= spec_header());
    push_attrs(&mut s, x);
    s.push_str(">\n");
    push_elements(&mut s, x);
    s.push_str("    </rdf:Description>\n  </rdf:RDF>\n</x:xmpmeta>\n<?xpacket end=\"w\"?>\n");
    assert(s@ =~= spec_render(x.spec_view()));
    s
}

// --------------------------------------------------------------- sidecar path

/// The path of the sidecar of `original`: its extension `e` becomes
/// `e.xmp`, or `xmp` is added when it has none. A present extension is
/// replaced as `set_extension` replaces one: taken off, then `.e.xmp`
/// appended. The file's own extension is never handed to `set_extension`,
/// which refuses one holding a path separator (a `\` in a Unix file name is
/// one on Windows).
pub open spec fn spec_sidecar_path(original: Seq<char>) -> Seq<char> {
    match spec_extension(original) {
        Some(e) => spec_set_extension(original, ""@) + "."@ + e + ".xmp"@,
        None => spec_set_extension(original, "xmp"@),
    }
}

/// The path of the XMP sidecar of `original` (`<original>.xmp`).
pub fn sidecar_path(original: &str) -> (p: String)
    ensures
        p@ == spec_sidecar_path(original@),
{
    let ext = match file_name_of(original) {
        Some(n) => crate::paths::extension_of_name(&chars_of(n.as_str())),
        None => None,
    };
    proof {
        reveal_strlit("");
        reveal_strlit(".");
        reveal_strlit(".xmp");
        reveal_strlit("xmp");
    }
    match ext {
        Some(e) => {
            let mut p = with_extension(original, "");
            p.push('.');
            crate::text::push_chars(&mut p, &e);
            p.push_str(".xmp");
            assert(p@ =~= spec_set_extension(original@, ""@) + "."@ + e@ + ".xmp"@);
            p
        },
        None => with_extension(original, "xmp"),
    }
}

/// Law: the sidecar of a file with extension `e` is the file with `.xmp`
/// after that extension; a file without one gets the extension `xmp`.
pub proof fn lemma_sidecar_path_rule(original: Seq<char>)
    ensures
        spec_extension(original) matches Some(e) ==> spec_sidecar_path(original) == spec_set_extension(original, ""@)
            + "."@ + spec_extension(original)->0 + ".xmp"@,
        spec_extension(original) is None ==> spec_sidecar_path(original) == spec_set_extension(original, "xmp"@),
        ".xmp"@ == seq!['.', 'x', 'm', 'p'],
{
    reveal_strlit(".xmp");
}

/// Law: where each field goes in the XMP packet. The packet is the header,
/// the attribute lines, `>`, the elements and the footer; the attributes
/// come in the order GPS, album, notes, date, and the elements in the order
/// title, description, tags, persons.
#[verifier::rlimit(40)]
pub proof fn lemma_render_layout(x: SpecXmp)
    ensures
        spec_render(x) == spec_header() + spec_gps_lines(x) + spec_album_line(x) + spec_notes_line(x) + spec_date_line(x)
            + ">\n"@ + spec_title_element(x) + spec_description_element(x) + spec_subject_element(x)
            + spec_persons_element(x) + spec_footer(),
        spec_footer() == "    </rdf:Description>\n  </rdf:RDF>\n</x:xmpmeta>\n<?xpacket end=\"w\"?>\n"@,
{
    assert(spec_render(x) =~= spec_header() + spec_gps_lines(x) + spec_album_line(x) + spec_notes_line(x)
        + spec_date_line(x) + ">\n"@ + spec_title_element(x) + spec_description_element(x) + spec_subject_element(x)
        + spec_persons_element(x) + spec_footer());
}

/// Law: the attribute lines. The coordinates go to `exif:GPSLatitude` and
/// `exif:GPSLongitude`, the album (escaped) to `mediavault:AlbumName`, the
/// notes (escaped) to `photoshop:Instructions` and the date to
/// `xmp:CreateDate`, each on its own line as `key="value"`, and only when
/// the field is present.
pub proof fn lemma_attribute_lines(x: SpecXmp)
    ensures
        spec_gps_lines(x) == match x.gps {
            Some((la, lo)) => "\n        "@ + "exif:GPSLatitude"@ + "=\""@ + la + "\""@ + ("\n        "@ + "exif:GPSLongitude"@ + "=\""@ + lo + "\""@),
            None => Seq::<char>::empty(),
        },
        spec_album_line(x) == match x.album {
            Some(a) => "\n        "@ + "mediavault:AlbumName"@ + "=\""@ + spec_encode_xml(a) + "\""@,
            None => Seq::<char>::empty(),
        },
        spec_notes_line(x) == match x.notes {
            Some(n) => "\n        "@ + "photoshop:Instructions"@ + "=\""@ + spec_encode_xml(n) + "\""@,
            None => Seq::<char>::empty(),
        },
        spec_date_line(x) == match x.date_created {
            Some(d) => "\n        "@ + "xmp:CreateDate"@ + "=\""@ + d + "\""@,
            None => Seq::<char>::empty(),
        },
{
    match x.gps {
        Some((la, lo)) => {
            assert(spec_gps_lines(x) =~= "\n        "@ + "exif:GPSLatitude"@ + "=\""@ + la + "\""@ + ("\n        "@
                + "exif:GPSLongitude"@ + "=\""@ + lo + "\""@));
        },
        None => {},
    }
}

/// Law: the elements. The title and the description (escaped) are the
/// `x-default` alternative of `dc:title` and `dc:description`; the tags and
/// the persons are one escaped `rdf:li` line each, in order, in the bags
/// `dc:subject` and `mediavault:PersonNames`; each element is present only
/// when its field is.
pub proof fn lemma_element_lines(x: SpecXmp)
    ensures
        spec_title_element(x) == match x.title {
            Some(t) => "      <dc:title><rdf:Alt><rdf:li xml:lang=\"x-default\">"@ + spec_encode_xml(t)
                + "</rdf:li></rdf:Alt></dc:title>\n"@,
            None => Seq::<char>::empty(),
        },
        spec_description_element(x) == match x.description {
            Some(d) => "      <dc:description><rdf:Alt><rdf:li xml:lang=\"x-default\">"@ + spec_encode_xml(d)
                + "</rdf:li></rdf:Alt></dc:description>\n"@,
            None => Seq::<char>::empty(),
        },
        spec_subject_element(x) == if x.tags.len() > 0 {
            "      <dc:subject><rdf:Bag>\n"@ + spec_li_lines(x.tags) + "      </rdf:Bag></dc:subject>\n"@
        } else {
            Seq::<char>::empty()
        },
        spec_persons_element(x) == if x.persons.len() > 0 {
            "      <mediavault:PersonNames><rdf:Bag>\n"@ + spec_li_lines(x.persons)
                + "      </rdf:Bag></mediavault:PersonNames>\n"@
        } else {
            Seq::<char>::empty()
        },
        forall|items: Seq<Seq<char>>| #![trigger spec_li_lines(items)] items.len() > 0 ==> spec_li_lines(items)
            == spec_li_lines(items.drop_last()) + "        <rdf:li>"@ + spec_encode_xml(items.last()) + "</rdf:li>\n"@,
{
}

} // verus!
