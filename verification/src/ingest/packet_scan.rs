//! Where the scans of the XMP parser can stop in a rendered packet: the
//! facts about occurrences of a needle in a text built from pieces, and the
//! pieces of the packet that start none of the tags and attributes the
//! parser looks for.

use crate::ingest::sidecar::{spec_close_tag, spec_footer, spec_header, spec_open_tag};
use crate::text::{lemma_find, lemma_find_is_first, spec_find, spec_occurs_at};
use vstd::prelude::*;

verus! {

// ------------------------------------------------------------ scanning facts

/// No occurrence of `n` in `s + rest` begins inside `s`.
pub open spec fn spec_no_start(s: Seq<char>, rest: Seq<char>, n: Seq<char>) -> bool {
    forall|j: int| 0 <= j < s.len() ==> !spec_occurs_at(#[trigger] (s + rest), n, j)
}

/// Whether `c` occurs nowhere in `s`.
pub open spec fn spec_lacks(s: Seq<char>, c: char) -> bool {
    forall|i: int| 0 <= i < s.len() ==> s[i] != c
}

pub(crate) proof fn lemma_no_start_join(a: Seq<char>, b: Seq<char>, c: Seq<char>, n: Seq<char>)
    requires
        spec_no_start(a, b + c, n),
        spec_no_start(b, c, n),
    ensures
        spec_no_start(a + b, c, n),
{
    assert((a + b) + c =~= a + (b + c));
    assert forall|j: int| 0 <= j < (a + b).len() implies !spec_occurs_at(#[trigger] ((a + b) + c), n, j) by {
        if j < a.len() {
            assert(!spec_occurs_at(a + (b + c), n, j));
        } else {
            assert(!spec_occurs_at(b + c, n, j - a.len()));
            if spec_occurs_at((a + b) + c, n, j) {
                assert(((a + b) + c).subrange(j, j + n.len()) =~= (b + c).subrange(
                    j - a.len(),
                    j - a.len() + n.len(),
                ));
            }
        }
    }
}

pub(crate) proof fn lemma_no_start_empty(rest: Seq<char>, n: Seq<char>)
    ensures
        spec_no_start(Seq::empty(), rest, n),
{
}

/// A piece without the needle's first character starts no occurrence.
pub(crate) proof fn lemma_no_start_lacks(s: Seq<char>, rest: Seq<char>, n: Seq<char>)
    requires
        n.len() > 0,
        spec_lacks(s, n[0]),
    ensures
        spec_no_start(s, rest, n),
{
    assert forall|j: int| 0 <= j < s.len() implies !spec_occurs_at(#[trigger] (s + rest), n, j) by {
        if spec_occurs_at(s + rest, n, j) {
            assert((s + rest).subrange(j, j + n.len())[0] == n[0]);
        }
    }
}

/// A piece that holds no whole occurrence, followed by a character that only the needle's first
/// position could match, starts no occurrence.
pub(crate) proof fn lemma_no_start_boundary(s: Seq<char>, rest: Seq<char>, n: Seq<char>)
    requires
        rest.len() > 0,
        forall|j: int| 0 <= j && j + n.len() <= s.len() ==> !spec_occurs_at(s, n, j),
        forall|k: int| 1 <= k < n.len() ==> n[k] != rest[0],
    ensures
        spec_no_start(s, rest, n),
{
    assert forall|j: int| 0 <= j < s.len() implies !spec_occurs_at(#[trigger] (s + rest), n, j) by {
        if spec_occurs_at(s + rest, n, j) {
            if j + n.len() <= s.len() {
                assert((s + rest).subrange(j, j + n.len()) =~= s.subrange(j, j + n.len()));
                assert(spec_occurs_at(s, n, j));
            } else {
                let k = s.len() - j;
                assert((s + rest).subrange(j, j + n.len())[k] == rest[0]);
            }
        }
    }
}

/// An attribute value without quotes starts no occurrence of `w="` unless it ends with `w`.
pub(crate) proof fn lemma_no_start_value(v: Seq<char>, rest: Seq<char>, w: Seq<char>)
    requires
        spec_lacks(v, '"'),
        spec_lacks(w, '"'),
        !w.is_suffix_of(v),
    ensures
        spec_no_start(v, seq!['"'] + rest, w + seq!['"']),
{
    let n = w + seq!['"'];
    let x = v + (seq!['"'] + rest);
    assert forall|j: int| 0 <= j < v.len() implies !spec_occurs_at(#[trigger] (v + (seq!['"'] + rest)), n, j) by {
        if spec_occurs_at(x, n, j) {
            let y = x.subrange(j, j + n.len());
            if j + n.len() <= v.len() {
                assert(y[n.len() - 1] == v[j + n.len() - 1]);
            } else {
                let k = v.len() - j;
                assert(y[k] == '"');
                if k < w.len() {
                    assert(n[k] == w[k]);
                }
                assert(k == w.len());
                assert(w =~= v.subrange(v.len() - w.len(), v.len() as int)) by {
                    assert forall|q: int| 0 <= q < w.len() implies w[q] == v[v.len() - w.len() + q] by {
                        assert(n[q] == w[q]);
                        assert(y[q] == x[j + q]);
                    }
                }
            }
        }
    }
}

/// The first occurrence of `n` in `p + q` is at the start of `q` when `q` starts with it and
/// nothing in `p` starts one.
pub(crate) proof fn lemma_find_first(p: Seq<char>, q: Seq<char>, n: Seq<char>)
    requires
        n.is_prefix_of(q),
        spec_no_start(p, q, n),
    ensures
        spec_find(p + q, n) == p.len(),
{
    assert((p + q).subrange(p.len() as int, (p.len() + n.len()) as int) =~= q.subrange(0, n.len() as int));
    assert(spec_occurs_at(p + q, n, p.len() as int));
    assert forall|j: int| 0 <= j < p.len() implies !spec_occurs_at(p + q, n, j) by {
        assert(!spec_occurs_at(p + q, n, j));
    }
    lemma_find_is_first(p + q, n, p.len() as int);
}

/// A needle that no piece of `s` starts does not occur in `s`.
pub(crate) proof fn lemma_find_absent(s: Seq<char>, n: Seq<char>)
    requires
        n.len() > 0,
        spec_no_start(s, Seq::empty(), n),
    ensures
        spec_find(s, n) == -1,
{
    assert(s + Seq::<char>::empty() =~= s);
    lemma_find(s, n);
    if spec_find(s, n) >= 0 {
        let k = spec_find(s, n);
        assert(!spec_occurs_at(s + Seq::<char>::empty(), n, k));
    }
}

// ------------------------------------------------------------ the literals

/// The tags and attributes the parser looks for.
pub open spec fn spec_scan_needle(n: Seq<char>) -> bool {
       n == "<dc:title>"@
    || n == "</dc:title>"@
    || n == "<dc:description>"@
    || n == "</dc:description>"@
    || n == "<dc:subject>"@
    || n == "</dc:subject>"@
    || n == "<mediavault:PersonNames>"@
    || n == "</mediavault:PersonNames>"@
    || n == "<photoshop:Instructions>"@
    || n == "<xmp:CreateDate>"@
    || n == "<photoshop:DateCreated>"@
    || n == "<exif:GPSLatitude>"@
    || n == "<exif:GPSLongitude>"@
    || n == "<mediavault:AlbumName>"@
    || n == "photoshop:Instructions=\""@
    || n == "xmp:CreateDate=\""@
    || n == "photoshop:DateCreated=\""@
    || n == "exif:GPSLatitude=\""@
    || n == "exif:GPSLongitude=\""@
    || n == "mediavault:AlbumName=\""@
}

/// The needles, character by character.
pub(crate) proof fn lemma_scan_needles()
    ensures
        "<dc:title>"@ == seq!['<', 'd', 'c', ':', 't', 'i', 't', 'l', 'e', '>'],
        "</dc:title>"@ == seq!['<', '/', 'd', 'c', ':', 't', 'i', 't', 'l', 'e', '>'],
        "<dc:description>"@ == seq!['<', 'd', 'c', ':', 'd', 'e', 's', 'c', 'r', 'i', 'p', 't', 'i', 'o', 'n', '>'],
        "</dc:description>"@ == seq!['<', '/', 'd', 'c', ':', 'd', 'e', 's', 'c', 'r', 'i', 'p', 't', 'i', 'o', 'n', '>'],
        "<dc:subject>"@ == seq!['<', 'd', 'c', ':', 's', 'u', 'b', 'j', 'e', 'c', 't', '>'],
        "</dc:subject>"@ == seq!['<', '/', 'd', 'c', ':', 's', 'u', 'b', 'j', 'e', 'c', 't', '>'],
        "<mediavault:PersonNames>"@ == seq!['<', 'm', 'e', 'd', 'i', 'a', 'v', 'a', 'u', 'l', 't', ':', 'P', 'e', 'r', 's', 'o', 'n', 'N', 'a', 'm', 'e', 's', '>'],
        "</mediavault:PersonNames>"@ == seq!['<', '/', 'm', 'e', 'd', 'i', 'a', 'v', 'a', 'u', 'l', 't', ':', 'P', 'e', 'r', 's', 'o', 'n', 'N', 'a', 'm', 'e', 's', '>'],
        "<photoshop:Instructions>"@ == seq!['<', 'p', 'h', 'o', 't', 'o', 's', 'h', 'o', 'p', ':', 'I', 'n', 's', 't', 'r', 'u', 'c', 't', 'i', 'o', 'n', 's', '>'],
        "<xmp:CreateDate>"@ == seq!['<', 'x', 'm', 'p', ':', 'C', 'r', 'e', 'a', 't', 'e', 'D', 'a', 't', 'e', '>'],
        "<photoshop:DateCreated>"@ == seq!['<', 'p', 'h', 'o', 't', 'o', 's', 'h', 'o', 'p', ':', 'D', 'a', 't', 'e', 'C', 'r', 'e', 'a', 't', 'e', 'd', '>'],
        "<exif:GPSLatitude>"@ == seq!['<', 'e', 'x', 'i', 'f', ':', 'G', 'P', 'S', 'L', 'a', 't', 'i', 't', 'u', 'd', 'e', '>'],
        "<exif:GPSLongitude>"@ == seq!['<', 'e', 'x', 'i', 'f', ':', 'G', 'P', 'S', 'L', 'o', 'n', 'g', 'i', 't', 'u', 'd', 'e', '>'],
        "<mediavault:AlbumName>"@ == seq!['<', 'm', 'e', 'd', 'i', 'a', 'v', 'a', 'u', 'l', 't', ':', 'A', 'l', 'b', 'u', 'm', 'N', 'a', 'm', 'e', '>'],
        "photoshop:Instructions=\""@ == seq!['p', 'h', 'o', 't', 'o', 's', 'h', 'o', 'p', ':', 'I', 'n', 's', 't', 'r', 'u', 'c', 't', 'i', 'o', 'n', 's', '=', '"'],
        "xmp:CreateDate=\""@ == seq!['x', 'm', 'p', ':', 'C', 'r', 'e', 'a', 't', 'e', 'D', 'a', 't', 'e', '=', '"'],
        "photoshop:DateCreated=\""@ == seq!['p', 'h', 'o', 't', 'o', 's', 'h', 'o', 'p', ':', 'D', 'a', 't', 'e', 'C', 'r', 'e', 'a', 't', 'e', 'd', '=', '"'],
        "exif:GPSLatitude=\""@ == seq!['e', 'x', 'i', 'f', ':', 'G', 'P', 'S', 'L', 'a', 't', 'i', 't', 'u', 'd', 'e', '=', '"'],
        "exif:GPSLongitude=\""@ == seq!['e', 'x', 'i', 'f', ':', 'G', 'P', 'S', 'L', 'o', 'n', 'g', 'i', 't', 'u', 'd', 'e', '=', '"'],
        "mediavault:AlbumName=\""@ == seq!['m', 'e', 'd', 'i', 'a', 'v', 'a', 'u', 'l', 't', ':', 'A', 'l', 'b', 'u', 'm', 'N', 'a', 'm', 'e', '=', '"'],
{
    reveal_strlit("<dc:title>");
    reveal_strlit("</dc:title>");
    reveal_strlit("<dc:description>");
    reveal_strlit("</dc:description>");
    reveal_strlit("<dc:subject>");
    reveal_strlit("</dc:subject>");
    reveal_strlit("<mediavault:PersonNames>");
    reveal_strlit("</mediavault:PersonNames>");
    reveal_strlit("<photoshop:Instructions>");
    reveal_strlit("<xmp:CreateDate>");
    reveal_strlit("<photoshop:DateCreated>");
    reveal_strlit("<exif:GPSLatitude>");
    reveal_strlit("<exif:GPSLongitude>");
    reveal_strlit("<mediavault:AlbumName>");
    reveal_strlit("photoshop:Instructions=\"");
    reveal_strlit("xmp:CreateDate=\"");
    reveal_strlit("photoshop:DateCreated=\"");
    reveal_strlit("exif:GPSLatitude=\"");
    reveal_strlit("exif:GPSLongitude=\"");
    reveal_strlit("mediavault:AlbumName=\"");
    assert("<dc:title>"@ =~= seq!['<', 'd', 'c', ':', 't', 'i', 't', 'l', 'e', '>']);
    assert("</dc:title>"@ =~= seq!['<', '/', 'd', 'c', ':', 't', 'i', 't', 'l', 'e', '>']);
    assert("<dc:description>"@ =~= seq!['<', 'd', 'c', ':', 'd', 'e', 's', 'c', 'r', 'i', 'p', 't', 'i', 'o', 'n', '>']);
    assert("</dc:description>"@ =~= seq!['<', '/', 'd', 'c', ':', 'd', 'e', 's', 'c', 'r', 'i', 'p', 't', 'i', 'o', 'n', '>']);
    assert("<dc:subject>"@ =~= seq!['<', 'd', 'c', ':', 's', 'u', 'b', 'j', 'e', 'c', 't', '>']);
    assert("</dc:subject>"@ =~= seq!['<', '/', 'd', 'c', ':', 's', 'u', 'b', 'j', 'e', 'c', 't', '>']);
    assert("<mediavault:PersonNames>"@ =~= seq!['<', 'm', 'e', 'd', 'i', 'a', 'v', 'a', 'u', 'l', 't', ':', 'P', 'e', 'r', 's', 'o', 'n', 'N', 'a', 'm', 'e', 's', '>']);
    assert("</mediavault:PersonNames>"@ =~= seq!['<', '/', 'm', 'e', 'd', 'i', 'a', 'v', 'a', 'u', 'l', 't', ':', 'P', 'e', 'r', 's', 'o', 'n', 'N', 'a', 'm', 'e', 's', '>']);
    assert("<photoshop:Instructions>"@ =~= seq!['<', 'p', 'h', 'o', 't', 'o', 's', 'h', 'o', 'p', ':', 'I', 'n', 's', 't', 'r', 'u', 'c', 't', 'i', 'o', 'n', 's', '>']);
    assert("<xmp:CreateDate>"@ =~= seq!['<', 'x', 'm', 'p', ':', 'C', 'r', 'e', 'a', 't', 'e', 'D', 'a', 't', 'e', '>']);
    assert("<photoshop:DateCreated>"@ =~= seq!['<', 'p', 'h', 'o', 't', 'o', 's', 'h', 'o', 'p', ':', 'D', 'a', 't', 'e', 'C', 'r', 'e', 'a', 't', 'e', 'd', '>']);
    assert("<exif:GPSLatitude>"@ =~= seq!['<', 'e', 'x', 'i', 'f', ':', 'G', 'P', 'S', 'L', 'a', 't', 'i', 't', 'u', 'd', 'e', '>']);
    assert("<exif:GPSLongitude>"@ =~= seq!['<', 'e', 'x', 'i', 'f', ':', 'G', 'P', 'S', 'L', 'o', 'n', 'g', 'i', 't', 'u', 'd', 'e', '>']);
    assert("<mediavault:AlbumName>"@ =~= seq!['<', 'm', 'e', 'd', 'i', 'a', 'v', 'a', 'u', 'l', 't', ':', 'A', 'l', 'b', 'u', 'm', 'N', 'a', 'm', 'e', '>']);
    assert("photoshop:Instructions=\""@ =~= seq!['p', 'h', 'o', 't', 'o', 's', 'h', 'o', 'p', ':', 'I', 'n', 's', 't', 'r', 'u', 'c', 't', 'i', 'o', 'n', 's', '=', '"']);
    assert("xmp:CreateDate=\""@ =~= seq!['x', 'm', 'p', ':', 'C', 'r', 'e', 'a', 't', 'e', 'D', 'a', 't', 'e', '=', '"']);
    assert("photoshop:DateCreated=\""@ =~= seq!['p', 'h', 'o', 't', 'o', 's', 'h', 'o', 'p', ':', 'D', 'a', 't', 'e', 'C', 'r', 'e', 'a', 't', 'e', 'd', '=', '"']);
    assert("exif:GPSLatitude=\""@ =~= seq!['e', 'x', 'i', 'f', ':', 'G', 'P', 'S', 'L', 'a', 't', 'i', 't', 'u', 'd', 'e', '=', '"']);
    assert("exif:GPSLongitude=\""@ =~= seq!['e', 'x', 'i', 'f', ':', 'G', 'P', 'S', 'L', 'o', 'n', 'g', 'i', 't', 'u', 'd', 'e', '=', '"']);
    assert("mediavault:AlbumName=\""@ =~= seq!['m', 'e', 'd', 'i', 'a', 'v', 'a', 'u', 'l', 't', ':', 'A', 'l', 'b', 'u', 'm', 'N', 'a', 'm', 'e', '=', '"']);
}

/// The first characters of equal texts agree.
pub(crate) proof fn lemma_char_hints(y: Seq<char>, n: Seq<char>)
    ensures
        y == n ==> {
            &&& y[0] == n[0] && y[1] == n[1] && y[2] == n[2] && y[3] == n[3] && y[4] == n[4]
            &&& y[5] == n[5] && y[6] == n[6] && y[7] == n[7] && y[8] == n[8] && y[9] == n[9]
            &&& y[10] == n[10] && y[11] == n[11] && y[12] == n[12]
        },
{
}

/// The packet header starts none of the tags and attributes the parser looks for.
#[verifier::rlimit(50)]
pub(crate) proof fn lemma_clean_header(rest: Seq<char>, n: Seq<char>)
    requires
        spec_scan_needle(n),
    ensures
        spec_no_start(spec_header(), rest, n),
{
    reveal_strlit("<?xpacket begin=\"\u{feff}\" id=\"W5M0MpCehiHzreSzNTczkc9d\"?>\n<x:xmpmeta xmlns:x=\"adobe:ns:meta/\">\n  <rdf:RDF xmlns:rdf=\"http://www.w3.org/1999/02/22-rdf-syntax-ns#\">\n    <rdf:Description rdf:about=\"\"\n        xmlns:dc=\"http://purl.org/dc/elements/1.1/\"\n        xmlns:xmp=\"http://ns.adobe.com/xap/1.0/\"\n        xmlns:photoshop=\"http://ns.adobe.com/photoshop/1.0/\"\n        xmlns:exif=\"http://ns.adobe.com/exif/1.0/\"\n        xmlns:mediavault=\"https://mediavault.dev/ns/1.0/\"");
    lemma_scan_needles();
    assert forall|j: int| 0 <= j < spec_header().len() implies !spec_occurs_at(#[trigger] (spec_header() + rest), n, j) by {
        if spec_occurs_at(spec_header() + rest, n, j) {
            lemma_char_hints((spec_header() + rest).subrange(j, j + n.len()), n);
        }
    }
}

/// The packet footer starts none of the tags and attributes the parser looks for.
pub(crate) proof fn lemma_clean_footer(rest: Seq<char>, n: Seq<char>)
    requires
        spec_scan_needle(n),
    ensures
        spec_no_start(spec_footer(), rest, n),
{
    reveal_strlit("    </rdf:Description>\n  </rdf:RDF>\n</x:xmpmeta>\n<?xpacket end=\"w\"?>\n");
    lemma_scan_needles();
    assert forall|j: int| 0 <= j < spec_footer().len() implies !spec_occurs_at(#[trigger] (spec_footer() + rest), n, j) by {
        if spec_occurs_at(spec_footer() + rest, n, j) {
            lemma_char_hints((spec_footer() + rest).subrange(j, j + n.len()), n);
        }
    }
}

/// The end of the attribute list starts none of the tags and attributes the parser looks for.
pub(crate) proof fn lemma_clean_close_attrs(rest: Seq<char>, n: Seq<char>)
    requires
        spec_scan_needle(n),
    ensures
        spec_no_start(">\n"@, rest, n),
{
    reveal_strlit(">\n");
    lemma_scan_needles();
    assert forall|j: int| 0 <= j < ">\n"@.len() implies !spec_occurs_at(#[trigger] (">\n"@ + rest), n, j) by {
        if spec_occurs_at(">\n"@ + rest, n, j) {
            lemma_char_hints((">\n"@ + rest).subrange(j, j + n.len()), n);
        }
    }
}

/// The quote that closes an attribute value starts none of the tags and attributes the parser looks
/// for.
pub(crate) proof fn lemma_clean_quote(rest: Seq<char>, n: Seq<char>)
    requires
        spec_scan_needle(n),
    ensures
        spec_no_start("\""@, rest, n),
{
    reveal_strlit("\"");
    lemma_scan_needles();
    assert forall|j: int| 0 <= j < "\""@.len() implies !spec_occurs_at(#[trigger] ("\""@ + rest), n, j) by {
        if spec_occurs_at("\""@ + rest, n, j) {
            lemma_char_hints(("\""@ + rest).subrange(j, j + n.len()), n);
        }
    }
}

/// The indentation that opens an attribute line starts none of the tags and attributes the parser
/// looks for.
pub(crate) proof fn lemma_clean_line_start(rest: Seq<char>, n: Seq<char>)
    requires
        spec_scan_needle(n),
    ensures
        spec_no_start("\n        "@, rest, n),
{
    reveal_strlit("\n        ");
    lemma_scan_needles();
    assert forall|j: int| 0 <= j < "\n        "@.len() implies !spec_occurs_at(#[trigger] ("\n        "@ + rest), n, j) by {
        if spec_occurs_at("\n        "@ + rest, n, j) {
            lemma_char_hints(("\n        "@ + rest).subrange(j, j + n.len()), n);
        }
    }
}

/// The indentation of an element starts none of the tags and attributes the parser looks for.
pub(crate) proof fn lemma_clean_indent(rest: Seq<char>, n: Seq<char>)
    requires
        spec_scan_needle(n),
    ensures
        spec_no_start("      "@, rest, n),
{
    reveal_strlit("      ");
    lemma_scan_needles();
    assert forall|j: int| 0 <= j < "      "@.len() implies !spec_occurs_at(#[trigger] ("      "@ + rest), n, j) by {
        if spec_occurs_at("      "@ + rest, n, j) {
            lemma_char_hints(("      "@ + rest).subrange(j, j + n.len()), n);
        }
    }
}

/// The latitude attribute up to its value starts none of the tags and attributes the parser looks
/// for but its own.
pub(crate) proof fn lemma_clean_key_lat(rest: Seq<char>, n: Seq<char>)
    requires
        spec_scan_needle(n),
        n != "exif:GPSLatitude=\""@,
    ensures
        spec_no_start("\n        exif:GPSLatitude=\""@, rest, n),
{
    reveal_strlit("\n        exif:GPSLatitude=\"");
    lemma_scan_needles();
    assert forall|j: int| 0 <= j < "\n        exif:GPSLatitude=\""@.len() implies !spec_occurs_at(#[trigger] ("\n        exif:GPSLatitude=\""@ + rest), n, j) by {
        if spec_occurs_at("\n        exif:GPSLatitude=\""@ + rest, n, j) {
            lemma_char_hints(("\n        exif:GPSLatitude=\""@ + rest).subrange(j, j + n.len()), n);
        }
    }
}

/// The longitude attribute up to its value starts none of the tags and attributes the parser looks
/// for but its own.
pub(crate) proof fn lemma_clean_key_lon(rest: Seq<char>, n: Seq<char>)
    requires
        spec_scan_needle(n),
        n != "exif:GPSLongitude=\""@,
    ensures
        spec_no_start("\n        exif:GPSLongitude=\""@, rest, n),
{
    reveal_strlit("\n        exif:GPSLongitude=\"");
    lemma_scan_needles();
    assert forall|j: int| 0 <= j < "\n        exif:GPSLongitude=\""@.len() implies !spec_occurs_at(#[trigger] ("\n        exif:GPSLongitude=\""@ + rest), n, j) by {
        if spec_occurs_at("\n        exif:GPSLongitude=\""@ + rest, n, j) {
            lemma_char_hints(("\n        exif:GPSLongitude=\""@ + rest).subrange(j, j + n.len()), n);
        }
    }
}

/// The album attribute up to its value starts none of the tags and attributes the parser looks for
/// but its own.
pub(crate) proof fn lemma_clean_key_album(rest: Seq<char>, n: Seq<char>)
    requires
        spec_scan_needle(n),
        n != "mediavault:AlbumName=\""@,
    ensures
        spec_no_start("\n        mediavault:AlbumName=\""@, rest, n),
{
    reveal_strlit("\n        mediavault:AlbumName=\"");
    lemma_scan_needles();
    assert forall|j: int| 0 <= j < "\n        mediavault:AlbumName=\""@.len() implies !spec_occurs_at(#[trigger] ("\n        mediavault:AlbumName=\""@ + rest), n, j) by {
        if spec_occurs_at("\n        mediavault:AlbumName=\""@ + rest, n, j) {
            lemma_char_hints(("\n        mediavault:AlbumName=\""@ + rest).subrange(j, j + n.len()), n);
        }
    }
}

/// The notes attribute up to its value starts none of the tags and attributes the parser looks for
/// but its own.
pub(crate) proof fn lemma_clean_key_notes(rest: Seq<char>, n: Seq<char>)
    requires
        spec_scan_needle(n),
        n != "photoshop:Instructions=\""@,
    ensures
        spec_no_start("\n        photoshop:Instructions=\""@, rest, n),
{
    reveal_strlit("\n        photoshop:Instructions=\"");
    lemma_scan_needles();
    assert forall|j: int| 0 <= j < "\n        photoshop:Instructions=\""@.len() implies !spec_occurs_at(#[trigger] ("\n        photoshop:Instructions=\""@ + rest), n, j) by {
        if spec_occurs_at("\n        photoshop:Instructions=\""@ + rest, n, j) {
            lemma_char_hints(("\n        photoshop:Instructions=\""@ + rest).subrange(j, j + n.len()), n);
        }
    }
}

/// The date attribute up to its value starts none of the tags and attributes the parser looks for
/// but its own.
pub(crate) proof fn lemma_clean_key_date(rest: Seq<char>, n: Seq<char>)
    requires
        spec_scan_needle(n),
        n != "xmp:CreateDate=\""@,
    ensures
        spec_no_start("\n        xmp:CreateDate=\""@, rest, n),
{
    reveal_strlit("\n        xmp:CreateDate=\"");
    lemma_scan_needles();
    assert forall|j: int| 0 <= j < "\n        xmp:CreateDate=\""@.len() implies !spec_occurs_at(#[trigger] ("\n        xmp:CreateDate=\""@ + rest), n, j) by {
        if spec_occurs_at("\n        xmp:CreateDate=\""@ + rest, n, j) {
            lemma_char_hints(("\n        xmp:CreateDate=\""@ + rest).subrange(j, j + n.len()), n);
        }
    }
}

/// The title element up to its text starts none of the tags and attributes the parser looks for but
/// its own.
pub(crate) proof fn lemma_clean_title_open(rest: Seq<char>, n: Seq<char>)
    requires
        spec_scan_needle(n),
        n != "<dc:title>"@,
    ensures
        spec_no_start("      <dc:title><rdf:Alt><rdf:li xml:lang=\"x-default\">"@, rest, n),
{
    reveal_strlit("      <dc:title><rdf:Alt><rdf:li xml:lang=\"x-default\">");
    lemma_scan_needles();
    assert forall|j: int| 0 <= j < "      <dc:title><rdf:Alt><rdf:li xml:lang=\"x-default\">"@.len() implies !spec_occurs_at(#[trigger] ("      <dc:title><rdf:Alt><rdf:li xml:lang=\"x-default\">"@ + rest), n, j) by {
        if spec_occurs_at("      <dc:title><rdf:Alt><rdf:li xml:lang=\"x-default\">"@ + rest, n, j) {
            lemma_char_hints(("      <dc:title><rdf:Alt><rdf:li xml:lang=\"x-default\">"@ + rest).subrange(j, j + n.len()), n);
        }
    }
}

/// The title element after its text starts none of the tags and attributes the parser looks for but
/// its own.
pub(crate) proof fn lemma_clean_title_close(rest: Seq<char>, n: Seq<char>)
    requires
        spec_scan_needle(n),
        n != "</dc:title>"@,
    ensures
        spec_no_start("</rdf:li></rdf:Alt></dc:title>\n"@, rest, n),
{
    reveal_strlit("</rdf:li></rdf:Alt></dc:title>\n");
    lemma_scan_needles();
    assert forall|j: int| 0 <= j < "</rdf:li></rdf:Alt></dc:title>\n"@.len() implies !spec_occurs_at(#[trigger] ("</rdf:li></rdf:Alt></dc:title>\n"@ + rest), n, j) by {
        if spec_occurs_at("</rdf:li></rdf:Alt></dc:title>\n"@ + rest, n, j) {
            lemma_char_hints(("</rdf:li></rdf:Alt></dc:title>\n"@ + rest).subrange(j, j + n.len()), n);
        }
    }
}

/// The description element up to its text starts none of the tags and attributes the parser looks
/// for but its own.
pub(crate) proof fn lemma_clean_description_open(rest: Seq<char>, n: Seq<char>)
    requires
        spec_scan_needle(n),
        n != "<dc:description>"@,
    ensures
        spec_no_start("      <dc:description><rdf:Alt><rdf:li xml:lang=\"x-default\">"@, rest, n),
{
    reveal_strlit("      <dc:description><rdf:Alt><rdf:li xml:lang=\"x-default\">");
    lemma_scan_needles();
    assert forall|j: int| 0 <= j < "      <dc:description><rdf:Alt><rdf:li xml:lang=\"x-default\">"@.len() implies !spec_occurs_at(#[trigger] ("      <dc:description><rdf:Alt><rdf:li xml:lang=\"x-default\">"@ + rest), n, j) by {
        if spec_occurs_at("      <dc:description><rdf:Alt><rdf:li xml:lang=\"x-default\">"@ + rest, n, j) {
            lemma_char_hints(("      <dc:description><rdf:Alt><rdf:li xml:lang=\"x-default\">"@ + rest).subrange(j, j + n.len()), n);
        }
    }
}

/// The description element after its text starts none of the tags and attributes the parser looks
/// for but its own.
pub(crate) proof fn lemma_clean_description_close(rest: Seq<char>, n: Seq<char>)
    requires
        spec_scan_needle(n),
        n != "</dc:description>"@,
    ensures
        spec_no_start("</rdf:li></rdf:Alt></dc:description>\n"@, rest, n),
{
    reveal_strlit("</rdf:li></rdf:Alt></dc:description>\n");
    lemma_scan_needles();
    assert forall|j: int| 0 <= j < "</rdf:li></rdf:Alt></dc:description>\n"@.len() implies !spec_occurs_at(#[trigger] ("</rdf:li></rdf:Alt></dc:description>\n"@ + rest), n, j) by {
        if spec_occurs_at("</rdf:li></rdf:Alt></dc:description>\n"@ + rest, n, j) {
            lemma_char_hints(("</rdf:li></rdf:Alt></dc:description>\n"@ + rest).subrange(j, j + n.len()), n);
        }
    }
}

/// The subject element up to its items starts none of the tags and attributes the parser looks for
/// but its own.
pub(crate) proof fn lemma_clean_subject_open(rest: Seq<char>, n: Seq<char>)
    requires
        spec_scan_needle(n),
        n != "<dc:subject>"@,
    ensures
        spec_no_start("      <dc:subject><rdf:Bag>\n"@, rest, n),
{
    reveal_strlit("      <dc:subject><rdf:Bag>\n");
    lemma_scan_needles();
    assert forall|j: int| 0 <= j < "      <dc:subject><rdf:Bag>\n"@.len() implies !spec_occurs_at(#[trigger] ("      <dc:subject><rdf:Bag>\n"@ + rest), n, j) by {
        if spec_occurs_at("      <dc:subject><rdf:Bag>\n"@ + rest, n, j) {
            lemma_char_hints(("      <dc:subject><rdf:Bag>\n"@ + rest).subrange(j, j + n.len()), n);
        }
    }
}

/// A list item up to its text starts none of the tags and attributes the parser looks for.
pub(crate) proof fn lemma_clean_item_open(rest: Seq<char>, n: Seq<char>)
    requires
        spec_scan_needle(n),
    ensures
        spec_no_start("        <rdf:li>"@, rest, n),
{
    reveal_strlit("        <rdf:li>");
    lemma_scan_needles();
    assert forall|j: int| 0 <= j < "        <rdf:li>"@.len() implies !spec_occurs_at(#[trigger] ("        <rdf:li>"@ + rest), n, j) by {
        if spec_occurs_at("        <rdf:li>"@ + rest, n, j) {
            lemma_char_hints(("        <rdf:li>"@ + rest).subrange(j, j + n.len()), n);
        }
    }
}

/// A list item after its text starts none of the tags and attributes the parser looks for.
pub(crate) proof fn lemma_clean_item_close(rest: Seq<char>, n: Seq<char>)
    requires
        spec_scan_needle(n),
    ensures
        spec_no_start("</rdf:li>\n"@, rest, n),
{
    reveal_strlit("</rdf:li>\n");
    lemma_scan_needles();
    assert forall|j: int| 0 <= j < "</rdf:li>\n"@.len() implies !spec_occurs_at(#[trigger] ("</rdf:li>\n"@ + rest), n, j) by {
        if spec_occurs_at("</rdf:li>\n"@ + rest, n, j) {
            lemma_char_hints(("</rdf:li>\n"@ + rest).subrange(j, j + n.len()), n);
        }
    }
}

/// The subject element after its items starts none of the tags and attributes the parser looks for
/// but its own.
pub(crate) proof fn lemma_clean_subject_close(rest: Seq<char>, n: Seq<char>)
    requires
        spec_scan_needle(n),
        n != "</dc:subject>"@,
    ensures
        spec_no_start("      </rdf:Bag></dc:subject>\n"@, rest, n),
{
    reveal_strlit("      </rdf:Bag></dc:subject>\n");
    lemma_scan_needles();
    assert forall|j: int| 0 <= j < "      </rdf:Bag></dc:subject>\n"@.len() implies !spec_occurs_at(#[trigger] ("      </rdf:Bag></dc:subject>\n"@ + rest), n, j) by {
        if spec_occurs_at("      </rdf:Bag></dc:subject>\n"@ + rest, n, j) {
            lemma_char_hints(("      </rdf:Bag></dc:subject>\n"@ + rest).subrange(j, j + n.len()), n);
        }
    }
}

/// The persons element up to its items starts none of the tags and attributes the parser looks for
/// but its own.
pub(crate) proof fn lemma_clean_persons_open(rest: Seq<char>, n: Seq<char>)
    requires
        spec_scan_needle(n),
        n != "<mediavault:PersonNames>"@,
    ensures
        spec_no_start("      <mediavault:PersonNames><rdf:Bag>\n"@, rest, n),
{
    reveal_strlit("      <mediavault:PersonNames><rdf:Bag>\n");
    lemma_scan_needles();
    assert forall|j: int| 0 <= j < "      <mediavault:PersonNames><rdf:Bag>\n"@.len() implies !spec_occurs_at(#[trigger] ("      <mediavault:PersonNames><rdf:Bag>\n"@ + rest), n, j) by {
        if spec_occurs_at("      <mediavault:PersonNames><rdf:Bag>\n"@ + rest, n, j) {
            lemma_char_hints(("      <mediavault:PersonNames><rdf:Bag>\n"@ + rest).subrange(j, j + n.len()), n);
        }
    }
}

/// The persons element after its items starts none of the tags and attributes the parser looks for
/// but its own.
pub(crate) proof fn lemma_clean_persons_close(rest: Seq<char>, n: Seq<char>)
    requires
        spec_scan_needle(n),
        n != "</mediavault:PersonNames>"@,
    ensures
        spec_no_start("      </rdf:Bag></mediavault:PersonNames>\n"@, rest, n),
{
    reveal_strlit("      </rdf:Bag></mediavault:PersonNames>\n");
    lemma_scan_needles();
    assert forall|j: int| 0 <= j < "      </rdf:Bag></mediavault:PersonNames>\n"@.len() implies !spec_occurs_at(#[trigger] ("      </rdf:Bag></mediavault:PersonNames>\n"@ + rest), n, j) by {
        if spec_occurs_at("      </rdf:Bag></mediavault:PersonNames>\n"@ + rest, n, j) {
            lemma_char_hints(("      </rdf:Bag></mediavault:PersonNames>\n"@ + rest).subrange(j, j + n.len()), n);
        }
    }
}

/// The language alternative up to its text starts none of the tags and attributes the parser looks
/// for.
pub(crate) proof fn lemma_clean_alt_open(rest: Seq<char>, n: Seq<char>)
    requires
        spec_scan_needle(n),
    ensures
        spec_no_start("<rdf:Alt><rdf:li xml:lang=\"x-default\">"@, rest, n),
{
    reveal_strlit("<rdf:Alt><rdf:li xml:lang=\"x-default\">");
    lemma_scan_needles();
    assert forall|j: int| 0 <= j < "<rdf:Alt><rdf:li xml:lang=\"x-default\">"@.len() implies !spec_occurs_at(#[trigger] ("<rdf:Alt><rdf:li xml:lang=\"x-default\">"@ + rest), n, j) by {
        if spec_occurs_at("<rdf:Alt><rdf:li xml:lang=\"x-default\">"@ + rest, n, j) {
            lemma_char_hints(("<rdf:Alt><rdf:li xml:lang=\"x-default\">"@ + rest).subrange(j, j + n.len()), n);
        }
    }
}

/// The language alternative after its text starts none of the tags and attributes the parser looks
/// for.
pub(crate) proof fn lemma_clean_alt_close(rest: Seq<char>, n: Seq<char>)
    requires
        spec_scan_needle(n),
    ensures
        spec_no_start("</rdf:li></rdf:Alt>"@, rest, n),
{
    reveal_strlit("</rdf:li></rdf:Alt>");
    lemma_scan_needles();
    assert forall|j: int| 0 <= j < "</rdf:li></rdf:Alt>"@.len() implies !spec_occurs_at(#[trigger] ("</rdf:li></rdf:Alt>"@ + rest), n, j) by {
        if spec_occurs_at("</rdf:li></rdf:Alt>"@ + rest, n, j) {
            lemma_char_hints(("</rdf:li></rdf:Alt>"@ + rest).subrange(j, j + n.len()), n);
        }
    }
}

/// The bag up to its items starts none of the tags and attributes the parser looks for.
pub(crate) proof fn lemma_clean_bag_open(rest: Seq<char>, n: Seq<char>)
    requires
        spec_scan_needle(n),
    ensures
        spec_no_start("<rdf:Bag>\n"@, rest, n),
{
    reveal_strlit("<rdf:Bag>\n");
    lemma_scan_needles();
    assert forall|j: int| 0 <= j < "<rdf:Bag>\n"@.len() implies !spec_occurs_at(#[trigger] ("<rdf:Bag>\n"@ + rest), n, j) by {
        if spec_occurs_at("<rdf:Bag>\n"@ + rest, n, j) {
            lemma_char_hints(("<rdf:Bag>\n"@ + rest).subrange(j, j + n.len()), n);
        }
    }
}

/// The bag after its items starts none of the tags and attributes the parser looks for.
pub(crate) proof fn lemma_clean_bag_close(rest: Seq<char>, n: Seq<char>)
    requires
        spec_scan_needle(n),
    ensures
        spec_no_start("      </rdf:Bag>"@, rest, n),
{
    reveal_strlit("      </rdf:Bag>");
    lemma_scan_needles();
    assert forall|j: int| 0 <= j < "      </rdf:Bag>"@.len() implies !spec_occurs_at(#[trigger] ("      </rdf:Bag>"@ + rest), n, j) by {
        if spec_occurs_at("      </rdf:Bag>"@ + rest, n, j) {
            lemma_char_hints(("      </rdf:Bag>"@ + rest).subrange(j, j + n.len()), n);
        }
    }
}

// ------------------------------------------------------------ the needles

/// The tags and attribute needles of the parsed fields, spelled out.
pub(crate) proof fn lemma_tag_literals()
    ensures
        spec_open_tag("dc:title"@) == "<dc:title>"@,
        spec_close_tag("dc:title"@) == "</dc:title>"@,
        spec_open_tag("dc:description"@) == "<dc:description>"@,
        spec_close_tag("dc:description"@) == "</dc:description>"@,
        spec_open_tag("dc:subject"@) == "<dc:subject>"@,
        spec_close_tag("dc:subject"@) == "</dc:subject>"@,
        spec_open_tag("mediavault:PersonNames"@) == "<mediavault:PersonNames>"@,
        spec_close_tag("mediavault:PersonNames"@) == "</mediavault:PersonNames>"@,
        spec_open_tag("photoshop:Instructions"@) == "<photoshop:Instructions>"@,
        spec_close_tag("photoshop:Instructions"@) == "</photoshop:Instructions>"@,
        spec_open_tag("xmp:CreateDate"@) == "<xmp:CreateDate>"@,
        spec_close_tag("xmp:CreateDate"@) == "</xmp:CreateDate>"@,
        spec_open_tag("photoshop:DateCreated"@) == "<photoshop:DateCreated>"@,
        spec_close_tag("photoshop:DateCreated"@) == "</photoshop:DateCreated>"@,
        spec_open_tag("exif:GPSLatitude"@) == "<exif:GPSLatitude>"@,
        spec_close_tag("exif:GPSLatitude"@) == "</exif:GPSLatitude>"@,
        spec_open_tag("exif:GPSLongitude"@) == "<exif:GPSLongitude>"@,
        spec_close_tag("exif:GPSLongitude"@) == "</exif:GPSLongitude>"@,
        spec_open_tag("mediavault:AlbumName"@) == "<mediavault:AlbumName>"@,
        spec_close_tag("mediavault:AlbumName"@) == "</mediavault:AlbumName>"@,
        "photoshop:Instructions"@ + "=\""@ == "photoshop:Instructions=\""@,
        "xmp:CreateDate"@ + "=\""@ == "xmp:CreateDate=\""@,
        "photoshop:DateCreated"@ + "=\""@ == "photoshop:DateCreated=\""@,
        "exif:GPSLatitude"@ + "=\""@ == "exif:GPSLatitude=\""@,
        "exif:GPSLongitude"@ + "=\""@ == "exif:GPSLongitude=\""@,
        "mediavault:AlbumName"@ + "=\""@ == "mediavault:AlbumName=\""@,
{
    reveal_strlit("<");
    reveal_strlit(">");
    reveal_strlit("</");
    reveal_strlit("=\"");
    reveal_strlit("dc:title");
    reveal_strlit("<dc:title>");
    reveal_strlit("</dc:title>");
    reveal_strlit("dc:description");
    reveal_strlit("<dc:description>");
    reveal_strlit("</dc:description>");
    reveal_strlit("dc:subject");
    reveal_strlit("<dc:subject>");
    reveal_strlit("</dc:subject>");
    reveal_strlit("mediavault:PersonNames");
    reveal_strlit("<mediavault:PersonNames>");
    reveal_strlit("</mediavault:PersonNames>");
    reveal_strlit("photoshop:Instructions");
    reveal_strlit("<photoshop:Instructions>");
    reveal_strlit("</photoshop:Instructions>");
    reveal_strlit("xmp:CreateDate");
    reveal_strlit("<xmp:CreateDate>");
    reveal_strlit("</xmp:CreateDate>");
    reveal_strlit("photoshop:DateCreated");
    reveal_strlit("<photoshop:DateCreated>");
    reveal_strlit("</photoshop:DateCreated>");
    reveal_strlit("exif:GPSLatitude");
    reveal_strlit("<exif:GPSLatitude>");
    reveal_strlit("</exif:GPSLatitude>");
    reveal_strlit("exif:GPSLongitude");
    reveal_strlit("<exif:GPSLongitude>");
    reveal_strlit("</exif:GPSLongitude>");
    reveal_strlit("mediavault:AlbumName");
    reveal_strlit("<mediavault:AlbumName>");
    reveal_strlit("</mediavault:AlbumName>");
    reveal_strlit("photoshop:Instructions=\"");
    reveal_strlit("xmp:CreateDate=\"");
    reveal_strlit("photoshop:DateCreated=\"");
    reveal_strlit("exif:GPSLatitude=\"");
    reveal_strlit("exif:GPSLongitude=\"");
    reveal_strlit("mediavault:AlbumName=\"");
    assert(spec_open_tag("dc:title"@) =~= "<dc:title>"@);
    assert(spec_close_tag("dc:title"@) =~= "</dc:title>"@);
    assert(spec_open_tag("dc:description"@) =~= "<dc:description>"@);
    assert(spec_close_tag("dc:description"@) =~= "</dc:description>"@);
    assert(spec_open_tag("dc:subject"@) =~= "<dc:subject>"@);
    assert(spec_close_tag("dc:subject"@) =~= "</dc:subject>"@);
    assert(spec_open_tag("mediavault:PersonNames"@) =~= "<mediavault:PersonNames>"@);
    assert(spec_close_tag("mediavault:PersonNames"@) =~= "</mediavault:PersonNames>"@);
    assert(spec_open_tag("photoshop:Instructions"@) =~= "<photoshop:Instructions>"@);
    assert(spec_close_tag("photoshop:Instructions"@) =~= "</photoshop:Instructions>"@);
    assert(spec_open_tag("xmp:CreateDate"@) =~= "<xmp:CreateDate>"@);
    assert(spec_close_tag("xmp:CreateDate"@) =~= "</xmp:CreateDate>"@);
    assert(spec_open_tag("photoshop:DateCreated"@) =~= "<photoshop:DateCreated>"@);
    assert(spec_close_tag("photoshop:DateCreated"@) =~= "</photoshop:DateCreated>"@);
    assert(spec_open_tag("exif:GPSLatitude"@) =~= "<exif:GPSLatitude>"@);
    assert(spec_close_tag("exif:GPSLatitude"@) =~= "</exif:GPSLatitude>"@);
    assert(spec_open_tag("exif:GPSLongitude"@) =~= "<exif:GPSLongitude>"@);
    assert(spec_close_tag("exif:GPSLongitude"@) =~= "</exif:GPSLongitude>"@);
    assert(spec_open_tag("mediavault:AlbumName"@) =~= "<mediavault:AlbumName>"@);
    assert(spec_close_tag("mediavault:AlbumName"@) =~= "</mediavault:AlbumName>"@);
    assert("photoshop:Instructions"@ + "=\""@ =~= "photoshop:Instructions=\""@);
    assert("xmp:CreateDate"@ + "=\""@ =~= "xmp:CreateDate=\""@);
    assert("photoshop:DateCreated"@ + "=\""@ =~= "photoshop:DateCreated=\""@);
    assert("exif:GPSLatitude"@ + "=\""@ =~= "exif:GPSLatitude=\""@);
    assert("exif:GPSLongitude"@ + "=\""@ =~= "exif:GPSLongitude=\""@);
    assert("mediavault:AlbumName"@ + "=\""@ =~= "mediavault:AlbumName=\""@);
}



/// The rendered start of each attribute line, spelled out.
pub(crate) proof fn lemma_key_pieces()
    ensures
        ("\n        "@ + "exif:GPSLatitude"@) + "=\""@ == "\n        exif:GPSLatitude=\""@,
        ("\n        "@ + "exif:GPSLongitude"@) + "=\""@ == "\n        exif:GPSLongitude=\""@,
        ("\n        "@ + "mediavault:AlbumName"@) + "=\""@ == "\n        mediavault:AlbumName=\""@,
        ("\n        "@ + "photoshop:Instructions"@) + "=\""@ == "\n        photoshop:Instructions=\""@,
        ("\n        "@ + "xmp:CreateDate"@) + "=\""@ == "\n        xmp:CreateDate=\""@,
{
    reveal_strlit("\n        ");
    reveal_strlit("=\"");
    reveal_strlit("exif:GPSLatitude");
    reveal_strlit("\n        exif:GPSLatitude=\"");
    reveal_strlit("exif:GPSLongitude");
    reveal_strlit("\n        exif:GPSLongitude=\"");
    reveal_strlit("mediavault:AlbumName");
    reveal_strlit("\n        mediavault:AlbumName=\"");
    reveal_strlit("photoshop:Instructions");
    reveal_strlit("\n        photoshop:Instructions=\"");
    reveal_strlit("xmp:CreateDate");
    reveal_strlit("\n        xmp:CreateDate=\"");
    assert(("\n        "@ + "exif:GPSLatitude"@) + "=\""@ =~= "\n        exif:GPSLatitude=\""@);
    assert(("\n        "@ + "exif:GPSLongitude"@) + "=\""@ =~= "\n        exif:GPSLongitude=\""@);
    assert(("\n        "@ + "mediavault:AlbumName"@) + "=\""@ =~= "\n        mediavault:AlbumName=\""@);
    assert(("\n        "@ + "photoshop:Instructions"@) + "=\""@ =~= "\n        photoshop:Instructions=\""@);
    assert(("\n        "@ + "xmp:CreateDate"@) + "=\""@ =~= "\n        xmp:CreateDate=\""@);
}


/// Whether `n` is one of the tags the parser looks for.
pub open spec fn spec_tag_needle(n: Seq<char>) -> bool {
       n == "<dc:title>"@
    || n == "</dc:title>"@
    || n == "<dc:description>"@
    || n == "</dc:description>"@
    || n == "<dc:subject>"@
    || n == "</dc:subject>"@
    || n == "<mediavault:PersonNames>"@
    || n == "</mediavault:PersonNames>"@
    || n == "<photoshop:Instructions>"@
    || n == "<xmp:CreateDate>"@
    || n == "<photoshop:DateCreated>"@
    || n == "<exif:GPSLatitude>"@
    || n == "<exif:GPSLongitude>"@
    || n == "<mediavault:AlbumName>"@
}

/// A tag needle starts with `<` and is no attribute needle.
pub(crate) proof fn lemma_tag_needle(n: Seq<char>)
    requires
        spec_tag_needle(n),
    ensures
        spec_scan_needle(n),
        n.len() > 0 && n[0] == '<',
        n != "photoshop:Instructions=\""@,
        n != "xmp:CreateDate=\""@,
        n != "photoshop:DateCreated=\""@,
        n != "exif:GPSLatitude=\""@,
        n != "exif:GPSLongitude=\""@,
        n != "mediavault:AlbumName=\""@,
{
    lemma_scan_needles();
}

/// What an attribute needle is made of.
pub(crate) proof fn lemma_attr_needles()
    ensures
        "photoshop:Instructions=\""@.len() > 0 && "photoshop:Instructions=\""@[0] != '<' && "photoshop:Instructions=\""@.drop_last() == "photoshop:Instructions"@ + "="@,
        "xmp:CreateDate=\""@.len() > 0 && "xmp:CreateDate=\""@[0] != '<' && "xmp:CreateDate=\""@.drop_last() == "xmp:CreateDate"@ + "="@,
        "photoshop:DateCreated=\""@.len() > 0 && "photoshop:DateCreated=\""@[0] != '<' && "photoshop:DateCreated=\""@.drop_last() == "photoshop:DateCreated"@ + "="@,
        "exif:GPSLatitude=\""@.len() > 0 && "exif:GPSLatitude=\""@[0] != '<' && "exif:GPSLatitude=\""@.drop_last() == "exif:GPSLatitude"@ + "="@,
        "exif:GPSLongitude=\""@.len() > 0 && "exif:GPSLongitude=\""@[0] != '<' && "exif:GPSLongitude=\""@.drop_last() == "exif:GPSLongitude"@ + "="@,
        "mediavault:AlbumName=\""@.len() > 0 && "mediavault:AlbumName=\""@[0] != '<' && "mediavault:AlbumName=\""@.drop_last() == "mediavault:AlbumName"@ + "="@,
{
    lemma_scan_needles();
    reveal_strlit("=");
    reveal_strlit("photoshop:Instructions");
    reveal_strlit("xmp:CreateDate");
    reveal_strlit("photoshop:DateCreated");
    reveal_strlit("exif:GPSLatitude");
    reveal_strlit("exif:GPSLongitude");
    reveal_strlit("mediavault:AlbumName");
    assert("photoshop:Instructions=\""@.drop_last() =~= "photoshop:Instructions"@ + "="@);
    assert("xmp:CreateDate=\""@.drop_last() =~= "xmp:CreateDate"@ + "="@);
    assert("photoshop:DateCreated=\""@.drop_last() =~= "photoshop:DateCreated"@ + "="@);
    assert("exif:GPSLatitude=\""@.drop_last() =~= "exif:GPSLatitude"@ + "="@);
    assert("exif:GPSLongitude=\""@.drop_last() =~= "exif:GPSLongitude"@ + "="@);
    assert("mediavault:AlbumName=\""@.drop_last() =~= "mediavault:AlbumName"@ + "="@);
}


/// The needles the parser looks for differ from the tags and keys that the packet pieces hold.
pub(crate) proof fn lemma_needles_distinct()
    ensures
        "<dc:title>"@ != "</dc:title>"@,
        "<dc:title>"@ != "<dc:description>"@,
        "<dc:title>"@ != "</dc:description>"@,
        "<dc:title>"@ != "<dc:subject>"@,
        "<dc:title>"@ != "</dc:subject>"@,
        "<dc:title>"@ != "<mediavault:PersonNames>"@,
        "<dc:title>"@ != "</mediavault:PersonNames>"@,
        "</dc:title>"@ != "<dc:title>"@,
        "</dc:title>"@ != "<dc:description>"@,
        "</dc:title>"@ != "</dc:description>"@,
        "</dc:title>"@ != "<dc:subject>"@,
        "</dc:title>"@ != "</dc:subject>"@,
        "</dc:title>"@ != "<mediavault:PersonNames>"@,
        "</dc:title>"@ != "</mediavault:PersonNames>"@,
        "<dc:description>"@ != "<dc:title>"@,
        "<dc:description>"@ != "</dc:title>"@,
        "<dc:description>"@ != "</dc:description>"@,
        "<dc:description>"@ != "<dc:subject>"@,
        "<dc:description>"@ != "</dc:subject>"@,
        "<dc:description>"@ != "<mediavault:PersonNames>"@,
        "<dc:description>"@ != "</mediavault:PersonNames>"@,
        "</dc:description>"@ != "<dc:title>"@,
        "</dc:description>"@ != "</dc:title>"@,
        "</dc:description>"@ != "<dc:description>"@,
        "</dc:description>"@ != "<dc:subject>"@,
        "</dc:description>"@ != "</dc:subject>"@,
        "</dc:description>"@ != "<mediavault:PersonNames>"@,
        "</dc:description>"@ != "</mediavault:PersonNames>"@,
        "<dc:subject>"@ != "<dc:title>"@,
        "<dc:subject>"@ != "</dc:title>"@,
        "<dc:subject>"@ != "<dc:description>"@,
        "<dc:subject>"@ != "</dc:description>"@,
        "<dc:subject>"@ != "</dc:subject>"@,
        "<dc:subject>"@ != "<mediavault:PersonNames>"@,
        "<dc:subject>"@ != "</mediavault:PersonNames>"@,
        "</dc:subject>"@ != "<dc:title>"@,
        "</dc:subject>"@ != "</dc:title>"@,
        "</dc:subject>"@ != "<dc:description>"@,
        "</dc:subject>"@ != "</dc:description>"@,
        "</dc:subject>"@ != "<dc:subject>"@,
        "</dc:subject>"@ != "<mediavault:PersonNames>"@,
        "</dc:subject>"@ != "</mediavault:PersonNames>"@,
        "<mediavault:PersonNames>"@ != "<dc:title>"@,
        "<mediavault:PersonNames>"@ != "</dc:title>"@,
        "<mediavault:PersonNames>"@ != "<dc:description>"@,
        "<mediavault:PersonNames>"@ != "</dc:description>"@,
        "<mediavault:PersonNames>"@ != "<dc:subject>"@,
        "<mediavault:PersonNames>"@ != "</dc:subject>"@,
        "<mediavault:PersonNames>"@ != "</mediavault:PersonNames>"@,
        "</mediavault:PersonNames>"@ != "<dc:title>"@,
        "</mediavault:PersonNames>"@ != "</dc:title>"@,
        "</mediavault:PersonNames>"@ != "<dc:description>"@,
        "</mediavault:PersonNames>"@ != "</dc:description>"@,
        "</mediavault:PersonNames>"@ != "<dc:subject>"@,
        "</mediavault:PersonNames>"@ != "</dc:subject>"@,
        "</mediavault:PersonNames>"@ != "<mediavault:PersonNames>"@,
        "<photoshop:Instructions>"@ != "<dc:title>"@,
        "<photoshop:Instructions>"@ != "</dc:title>"@,
        "<photoshop:Instructions>"@ != "<dc:description>"@,
        "<photoshop:Instructions>"@ != "</dc:description>"@,
        "<photoshop:Instructions>"@ != "<dc:subject>"@,
        "<photoshop:Instructions>"@ != "</dc:subject>"@,
        "<photoshop:Instructions>"@ != "<mediavault:PersonNames>"@,
        "<photoshop:Instructions>"@ != "</mediavault:PersonNames>"@,
        "<xmp:CreateDate>"@ != "<dc:title>"@,
        "<xmp:CreateDate>"@ != "</dc:title>"@,
        "<xmp:CreateDate>"@ != "<dc:description>"@,
        "<xmp:CreateDate>"@ != "</dc:description>"@,
        "<xmp:CreateDate>"@ != "<dc:subject>"@,
        "<xmp:CreateDate>"@ != "</dc:subject>"@,
        "<xmp:CreateDate>"@ != "<mediavault:PersonNames>"@,
        "<xmp:CreateDate>"@ != "</mediavault:PersonNames>"@,
        "<photoshop:DateCreated>"@ != "<dc:title>"@,
        "<photoshop:DateCreated>"@ != "</dc:title>"@,
        "<photoshop:DateCreated>"@ != "<dc:description>"@,
        "<photoshop:DateCreated>"@ != "</dc:description>"@,
        "<photoshop:DateCreated>"@ != "<dc:subject>"@,
        "<photoshop:DateCreated>"@ != "</dc:subject>"@,
        "<photoshop:DateCreated>"@ != "<mediavault:PersonNames>"@,
        "<photoshop:DateCreated>"@ != "</mediavault:PersonNames>"@,
        "<exif:GPSLatitude>"@ != "<dc:title>"@,
        "<exif:GPSLatitude>"@ != "</dc:title>"@,
        "<exif:GPSLatitude>"@ != "<dc:description>"@,
        "<exif:GPSLatitude>"@ != "</dc:description>"@,
        "<exif:GPSLatitude>"@ != "<dc:subject>"@,
        "<exif:GPSLatitude>"@ != "</dc:subject>"@,
        "<exif:GPSLatitude>"@ != "<mediavault:PersonNames>"@,
        "<exif:GPSLatitude>"@ != "</mediavault:PersonNames>"@,
        "<exif:GPSLongitude>"@ != "<dc:title>"@,
        "<exif:GPSLongitude>"@ != "</dc:title>"@,
        "<exif:GPSLongitude>"@ != "<dc:description>"@,
        "<exif:GPSLongitude>"@ != "</dc:description>"@,
        "<exif:GPSLongitude>"@ != "<dc:subject>"@,
        "<exif:GPSLongitude>"@ != "</dc:subject>"@,
        "<exif:GPSLongitude>"@ != "<mediavault:PersonNames>"@,
        "<exif:GPSLongitude>"@ != "</mediavault:PersonNames>"@,
        "<mediavault:AlbumName>"@ != "<dc:title>"@,
        "<mediavault:AlbumName>"@ != "</dc:title>"@,
        "<mediavault:AlbumName>"@ != "<dc:description>"@,
        "<mediavault:AlbumName>"@ != "</dc:description>"@,
        "<mediavault:AlbumName>"@ != "<dc:subject>"@,
        "<mediavault:AlbumName>"@ != "</dc:subject>"@,
        "<mediavault:AlbumName>"@ != "<mediavault:PersonNames>"@,
        "<mediavault:AlbumName>"@ != "</mediavault:PersonNames>"@,
        "photoshop:Instructions=\""@ != "exif:GPSLatitude=\""@,
        "photoshop:Instructions=\""@ != "exif:GPSLongitude=\""@,
        "photoshop:Instructions=\""@ != "mediavault:AlbumName=\""@,
        "photoshop:Instructions=\""@ != "xmp:CreateDate=\""@,
        "xmp:CreateDate=\""@ != "exif:GPSLatitude=\""@,
        "xmp:CreateDate=\""@ != "exif:GPSLongitude=\""@,
        "xmp:CreateDate=\""@ != "mediavault:AlbumName=\""@,
        "xmp:CreateDate=\""@ != "photoshop:Instructions=\""@,
        "photoshop:DateCreated=\""@ != "exif:GPSLatitude=\""@,
        "photoshop:DateCreated=\""@ != "exif:GPSLongitude=\""@,
        "photoshop:DateCreated=\""@ != "mediavault:AlbumName=\""@,
        "photoshop:DateCreated=\""@ != "photoshop:Instructions=\""@,
        "photoshop:DateCreated=\""@ != "xmp:CreateDate=\""@,
        "exif:GPSLatitude=\""@ != "exif:GPSLongitude=\""@,
        "exif:GPSLatitude=\""@ != "mediavault:AlbumName=\""@,
        "exif:GPSLatitude=\""@ != "photoshop:Instructions=\""@,
        "exif:GPSLatitude=\""@ != "xmp:CreateDate=\""@,
        "exif:GPSLongitude=\""@ != "exif:GPSLatitude=\""@,
        "exif:GPSLongitude=\""@ != "mediavault:AlbumName=\""@,
        "exif:GPSLongitude=\""@ != "photoshop:Instructions=\""@,
        "exif:GPSLongitude=\""@ != "xmp:CreateDate=\""@,
        "mediavault:AlbumName=\""@ != "exif:GPSLatitude=\""@,
        "mediavault:AlbumName=\""@ != "exif:GPSLongitude=\""@,
        "mediavault:AlbumName=\""@ != "photoshop:Instructions=\""@,
        "mediavault:AlbumName=\""@ != "xmp:CreateDate=\""@,
        "photoshop:Instructions=\""@ != "<dc:title>"@,
        "photoshop:Instructions=\""@ != "</dc:title>"@,
        "photoshop:Instructions=\""@ != "<dc:description>"@,
        "photoshop:Instructions=\""@ != "</dc:description>"@,
        "photoshop:Instructions=\""@ != "<dc:subject>"@,
        "photoshop:Instructions=\""@ != "</dc:subject>"@,
        "photoshop:Instructions=\""@ != "<mediavault:PersonNames>"@,
        "photoshop:Instructions=\""@ != "</mediavault:PersonNames>"@,
        "xmp:CreateDate=\""@ != "<dc:title>"@,
        "xmp:CreateDate=\""@ != "</dc:title>"@,
        "xmp:CreateDate=\""@ != "<dc:description>"@,
        "xmp:CreateDate=\""@ != "</dc:description>"@,
        "xmp:CreateDate=\""@ != "<dc:subject>"@,
        "xmp:CreateDate=\""@ != "</dc:subject>"@,
        "xmp:CreateDate=\""@ != "<mediavault:PersonNames>"@,
        "xmp:CreateDate=\""@ != "</mediavault:PersonNames>"@,
        "photoshop:DateCreated=\""@ != "<dc:title>"@,
        "photoshop:DateCreated=\""@ != "</dc:title>"@,
        "photoshop:DateCreated=\""@ != "<dc:description>"@,
        "photoshop:DateCreated=\""@ != "</dc:description>"@,
        "photoshop:DateCreated=\""@ != "<dc:subject>"@,
        "photoshop:DateCreated=\""@ != "</dc:subject>"@,
        "photoshop:DateCreated=\""@ != "<mediavault:PersonNames>"@,
        "photoshop:DateCreated=\""@ != "</mediavault:PersonNames>"@,
        "exif:GPSLatitude=\""@ != "<dc:title>"@,
        "exif:GPSLatitude=\""@ != "</dc:title>"@,
        "exif:GPSLatitude=\""@ != "<dc:description>"@,
        "exif:GPSLatitude=\""@ != "</dc:description>"@,
        "exif:GPSLatitude=\""@ != "<dc:subject>"@,
        "exif:GPSLatitude=\""@ != "</dc:subject>"@,
        "exif:GPSLatitude=\""@ != "<mediavault:PersonNames>"@,
        "exif:GPSLatitude=\""@ != "</mediavault:PersonNames>"@,
        "exif:GPSLongitude=\""@ != "<dc:title>"@,
        "exif:GPSLongitude=\""@ != "</dc:title>"@,
        "exif:GPSLongitude=\""@ != "<dc:description>"@,
        "exif:GPSLongitude=\""@ != "</dc:description>"@,
        "exif:GPSLongitude=\""@ != "<dc:subject>"@,
        "exif:GPSLongitude=\""@ != "</dc:subject>"@,
        "exif:GPSLongitude=\""@ != "<mediavault:PersonNames>"@,
        "exif:GPSLongitude=\""@ != "</mediavault:PersonNames>"@,
        "mediavault:AlbumName=\""@ != "<dc:title>"@,
        "mediavault:AlbumName=\""@ != "</dc:title>"@,
        "mediavault:AlbumName=\""@ != "<dc:description>"@,
        "mediavault:AlbumName=\""@ != "</dc:description>"@,
        "mediavault:AlbumName=\""@ != "<dc:subject>"@,
        "mediavault:AlbumName=\""@ != "</dc:subject>"@,
        "mediavault:AlbumName=\""@ != "<mediavault:PersonNames>"@,
        "mediavault:AlbumName=\""@ != "</mediavault:PersonNames>"@,
{
    lemma_scan_needles();
    assert("<dc:title>"@.len() != "</dc:title>"@.len());
    assert("<dc:title>"@.len() != "<dc:description>"@.len());
    assert("<dc:title>"@.len() != "</dc:description>"@.len());
    assert("<dc:title>"@.len() != "<dc:subject>"@.len());
    assert("<dc:title>"@.len() != "</dc:subject>"@.len());
    assert("<dc:title>"@.len() != "<mediavault:PersonNames>"@.len());
    assert("<dc:title>"@.len() != "</mediavault:PersonNames>"@.len());
    assert("</dc:title>"@.len() != "<dc:title>"@.len());
    assert("</dc:title>"@.len() != "<dc:description>"@.len());
    assert("</dc:title>"@.len() != "</dc:description>"@.len());
    assert("</dc:title>"@.len() != "<dc:subject>"@.len());
    assert("</dc:title>"@.len() != "</dc:subject>"@.len());
    assert("</dc:title>"@.len() != "<mediavault:PersonNames>"@.len());
    assert("</dc:title>"@.len() != "</mediavault:PersonNames>"@.len());
    assert("<dc:description>"@.len() != "<dc:title>"@.len());
    assert("<dc:description>"@.len() != "</dc:title>"@.len());
    assert("<dc:description>"@.len() != "</dc:description>"@.len());
    assert("<dc:description>"@.len() != "<dc:subject>"@.len());
    assert("<dc:description>"@.len() != "</dc:subject>"@.len());
    assert("<dc:description>"@.len() != "<mediavault:PersonNames>"@.len());
    assert("<dc:description>"@.len() != "</mediavault:PersonNames>"@.len());
    assert("</dc:description>"@.len() != "<dc:title>"@.len());
    assert("</dc:description>"@.len() != "</dc:title>"@.len());
    assert("</dc:description>"@.len() != "<dc:description>"@.len());
    assert("</dc:description>"@.len() != "<dc:subject>"@.len());
    assert("</dc:description>"@.len() != "</dc:subject>"@.len());
    assert("</dc:description>"@.len() != "<mediavault:PersonNames>"@.len());
    assert("</dc:description>"@.len() != "</mediavault:PersonNames>"@.len());
    assert("<dc:subject>"@.len() != "<dc:title>"@.len());
    assert("<dc:subject>"@.len() != "</dc:title>"@.len());
    assert("<dc:subject>"@.len() != "<dc:description>"@.len());
    assert("<dc:subject>"@.len() != "</dc:description>"@.len());
    assert("<dc:subject>"@.len() != "</dc:subject>"@.len());
    assert("<dc:subject>"@.len() != "<mediavault:PersonNames>"@.len());
    assert("<dc:subject>"@.len() != "</mediavault:PersonNames>"@.len());
    assert("</dc:subject>"@.len() != "<dc:title>"@.len());
    assert("</dc:subject>"@.len() != "</dc:title>"@.len());
    assert("</dc:subject>"@.len() != "<dc:description>"@.len());
    assert("</dc:subject>"@.len() != "</dc:description>"@.len());
    assert("</dc:subject>"@.len() != "<dc:subject>"@.len());
    assert("</dc:subject>"@.len() != "<mediavault:PersonNames>"@.len());
    assert("</dc:subject>"@.len() != "</mediavault:PersonNames>"@.len());
    assert("<mediavault:PersonNames>"@.len() != "<dc:title>"@.len());
    assert("<mediavault:PersonNames>"@.len() != "</dc:title>"@.len());
    assert("<mediavault:PersonNames>"@.len() != "<dc:description>"@.len());
    assert("<mediavault:PersonNames>"@.len() != "</dc:description>"@.len());
    assert("<mediavault:PersonNames>"@.len() != "<dc:subject>"@.len());
    assert("<mediavault:PersonNames>"@.len() != "</dc:subject>"@.len());
    assert("<mediavault:PersonNames>"@.len() != "</mediavault:PersonNames>"@.len());
    assert("</mediavault:PersonNames>"@.len() != "<dc:title>"@.len());
    assert("</mediavault:PersonNames>"@.len() != "</dc:title>"@.len());
    assert("</mediavault:PersonNames>"@.len() != "<dc:description>"@.len());
    assert("</mediavault:PersonNames>"@.len() != "</dc:description>"@.len());
    assert("</mediavault:PersonNames>"@.len() != "<dc:subject>"@.len());
    assert("</mediavault:PersonNames>"@.len() != "</dc:subject>"@.len());
    assert("</mediavault:PersonNames>"@.len() != "<mediavault:PersonNames>"@.len());
    assert("<photoshop:Instructions>"@.len() != "<dc:title>"@.len());
    assert("<photoshop:Instructions>"@.len() != "</dc:title>"@.len());
    assert("<photoshop:Instructions>"@.len() != "<dc:description>"@.len());
    assert("<photoshop:Instructions>"@.len() != "</dc:description>"@.len());
    assert("<photoshop:Instructions>"@.len() != "<dc:subject>"@.len());
    assert("<photoshop:Instructions>"@.len() != "</dc:subject>"@.len());
    assert("<photoshop:Instructions>"@[1] != "<mediavault:PersonNames>"@[1]);
    assert("<photoshop:Instructions>"@.len() != "</mediavault:PersonNames>"@.len());
    assert("<xmp:CreateDate>"@.len() != "<dc:title>"@.len());
    assert("<xmp:CreateDate>"@.len() != "</dc:title>"@.len());
    assert("<xmp:CreateDate>"@[1] != "<dc:description>"@[1]);
    assert("<xmp:CreateDate>"@.len() != "</dc:description>"@.len());
    assert("<xmp:CreateDate>"@.len() != "<dc:subject>"@.len());
    assert("<xmp:CreateDate>"@.len() != "</dc:subject>"@.len());
    assert("<xmp:CreateDate>"@.len() != "<mediavault:PersonNames>"@.len());
    assert("<xmp:CreateDate>"@.len() != "</mediavault:PersonNames>"@.len());
    assert("<photoshop:DateCreated>"@.len() != "<dc:title>"@.len());
    assert("<photoshop:DateCreated>"@.len() != "</dc:title>"@.len());
    assert("<photoshop:DateCreated>"@.len() != "<dc:description>"@.len());
    assert("<photoshop:DateCreated>"@.len() != "</dc:description>"@.len());
    assert("<photoshop:DateCreated>"@.len() != "<dc:subject>"@.len());
    assert("<photoshop:DateCreated>"@.len() != "</dc:subject>"@.len());
    assert("<photoshop:DateCreated>"@.len() != "<mediavault:PersonNames>"@.len());
    assert("<photoshop:DateCreated>"@.len() != "</mediavault:PersonNames>"@.len());
    assert("<exif:GPSLatitude>"@.len() != "<dc:title>"@.len());
    assert("<exif:GPSLatitude>"@.len() != "</dc:title>"@.len());
    assert("<exif:GPSLatitude>"@.len() != "<dc:description>"@.len());
    assert("<exif:GPSLatitude>"@.len() != "</dc:description>"@.len());
    assert("<exif:GPSLatitude>"@.len() != "<dc:subject>"@.len());
    assert("<exif:GPSLatitude>"@.len() != "</dc:subject>"@.len());
    assert("<exif:GPSLatitude>"@.len() != "<mediavault:PersonNames>"@.len());
    assert("<exif:GPSLatitude>"@.len() != "</mediavault:PersonNames>"@.len());
    assert("<exif:GPSLongitude>"@.len() != "<dc:title>"@.len());
    assert("<exif:GPSLongitude>"@.len() != "</dc:title>"@.len());
    assert("<exif:GPSLongitude>"@.len() != "<dc:description>"@.len());
    assert("<exif:GPSLongitude>"@.len() != "</dc:description>"@.len());
    assert("<exif:GPSLongitude>"@.len() != "<dc:subject>"@.len());
    assert("<exif:GPSLongitude>"@.len() != "</dc:subject>"@.len());
    assert("<exif:GPSLongitude>"@.len() != "<mediavault:PersonNames>"@.len());
    assert("<exif:GPSLongitude>"@.len() != "</mediavault:PersonNames>"@.len());
    assert("<mediavault:AlbumName>"@.len() != "<dc:title>"@.len());
    assert("<mediavault:AlbumName>"@.len() != "</dc:title>"@.len());
    assert("<mediavault:AlbumName>"@.len() != "<dc:description>"@.len());
    assert("<mediavault:AlbumName>"@.len() != "</dc:description>"@.len());
    assert("<mediavault:AlbumName>"@.len() != "<dc:subject>"@.len());
    assert("<mediavault:AlbumName>"@.len() != "</dc:subject>"@.len());
    assert("<mediavault:AlbumName>"@.len() != "<mediavault:PersonNames>"@.len());
    assert("<mediavault:AlbumName>"@.len() != "</mediavault:PersonNames>"@.len());
    assert("photoshop:Instructions=\""@.len() != "exif:GPSLatitude=\""@.len());
    assert("photoshop:Instructions=\""@.len() != "exif:GPSLongitude=\""@.len());
    assert("photoshop:Instructions=\""@.len() != "mediavault:AlbumName=\""@.len());
    assert("photoshop:Instructions=\""@.len() != "xmp:CreateDate=\""@.len());
    assert("xmp:CreateDate=\""@.len() != "exif:GPSLatitude=\""@.len());
    assert("xmp:CreateDate=\""@.len() != "exif:GPSLongitude=\""@.len());
    assert("xmp:CreateDate=\""@.len() != "mediavault:AlbumName=\""@.len());
    assert("xmp:CreateDate=\""@.len() != "photoshop:Instructions=\""@.len());
    assert("photoshop:DateCreated=\""@.len() != "exif:GPSLatitude=\""@.len());
    assert("photoshop:DateCreated=\""@.len() != "exif:GPSLongitude=\""@.len());
    assert("photoshop:DateCreated=\""@.len() != "mediavault:AlbumName=\""@.len());
    assert("photoshop:DateCreated=\""@.len() != "photoshop:Instructions=\""@.len());
    assert("photoshop:DateCreated=\""@.len() != "xmp:CreateDate=\""@.len());
    assert("exif:GPSLatitude=\""@.len() != "exif:GPSLongitude=\""@.len());
    assert("exif:GPSLatitude=\""@.len() != "mediavault:AlbumName=\""@.len());
    assert("exif:GPSLatitude=\""@.len() != "photoshop:Instructions=\""@.len());
    assert("exif:GPSLatitude=\""@.len() != "xmp:CreateDate=\""@.len());
    assert("exif:GPSLongitude=\""@.len() != "exif:GPSLatitude=\""@.len());
    assert("exif:GPSLongitude=\""@.len() != "mediavault:AlbumName=\""@.len());
    assert("exif:GPSLongitude=\""@.len() != "photoshop:Instructions=\""@.len());
    assert("exif:GPSLongitude=\""@.len() != "xmp:CreateDate=\""@.len());
    assert("mediavault:AlbumName=\""@.len() != "exif:GPSLatitude=\""@.len());
    assert("mediavault:AlbumName=\""@.len() != "exif:GPSLongitude=\""@.len());
    assert("mediavault:AlbumName=\""@.len() != "photoshop:Instructions=\""@.len());
    assert("mediavault:AlbumName=\""@.len() != "xmp:CreateDate=\""@.len());
    assert("photoshop:Instructions=\""@.len() != "<dc:title>"@.len());
    assert("photoshop:Instructions=\""@.len() != "</dc:title>"@.len());
    assert("photoshop:Instructions=\""@.len() != "<dc:description>"@.len());
    assert("photoshop:Instructions=\""@.len() != "</dc:description>"@.len());
    assert("photoshop:Instructions=\""@.len() != "<dc:subject>"@.len());
    assert("photoshop:Instructions=\""@.len() != "</dc:subject>"@.len());
    assert("photoshop:Instructions=\""@[0] != "<mediavault:PersonNames>"@[0]);
    assert("photoshop:Instructions=\""@.len() != "</mediavault:PersonNames>"@.len());
    assert("xmp:CreateDate=\""@.len() != "<dc:title>"@.len());
    assert("xmp:CreateDate=\""@.len() != "</dc:title>"@.len());
    assert("xmp:CreateDate=\""@[0] != "<dc:description>"@[0]);
    assert("xmp:CreateDate=\""@.len() != "</dc:description>"@.len());
    assert("xmp:CreateDate=\""@.len() != "<dc:subject>"@.len());
    assert("xmp:CreateDate=\""@.len() != "</dc:subject>"@.len());
    assert("xmp:CreateDate=\""@.len() != "<mediavault:PersonNames>"@.len());
    assert("xmp:CreateDate=\""@.len() != "</mediavault:PersonNames>"@.len());
    assert("photoshop:DateCreated=\""@.len() != "<dc:title>"@.len());
    assert("photoshop:DateCreated=\""@.len() != "</dc:title>"@.len());
    assert("photoshop:DateCreated=\""@.len() != "<dc:description>"@.len());
    assert("photoshop:DateCreated=\""@.len() != "</dc:description>"@.len());
    assert("photoshop:DateCreated=\""@.len() != "<dc:subject>"@.len());
    assert("photoshop:DateCreated=\""@.len() != "</dc:subject>"@.len());
    assert("photoshop:DateCreated=\""@.len() != "<mediavault:PersonNames>"@.len());
    assert("photoshop:DateCreated=\""@.len() != "</mediavault:PersonNames>"@.len());
    assert("exif:GPSLatitude=\""@.len() != "<dc:title>"@.len());
    assert("exif:GPSLatitude=\""@.len() != "</dc:title>"@.len());
    assert("exif:GPSLatitude=\""@.len() != "<dc:description>"@.len());
    assert("exif:GPSLatitude=\""@.len() != "</dc:description>"@.len());
    assert("exif:GPSLatitude=\""@.len() != "<dc:subject>"@.len());
    assert("exif:GPSLatitude=\""@.len() != "</dc:subject>"@.len());
    assert("exif:GPSLatitude=\""@.len() != "<mediavault:PersonNames>"@.len());
    assert("exif:GPSLatitude=\""@.len() != "</mediavault:PersonNames>"@.len());
    assert("exif:GPSLongitude=\""@.len() != "<dc:title>"@.len());
    assert("exif:GPSLongitude=\""@.len() != "</dc:title>"@.len());
    assert("exif:GPSLongitude=\""@.len() != "<dc:description>"@.len());
    assert("exif:GPSLongitude=\""@.len() != "</dc:description>"@.len());
    assert("exif:GPSLongitude=\""@.len() != "<dc:subject>"@.len());
    assert("exif:GPSLongitude=\""@.len() != "</dc:subject>"@.len());
    assert("exif:GPSLongitude=\""@.len() != "<mediavault:PersonNames>"@.len());
    assert("exif:GPSLongitude=\""@.len() != "</mediavault:PersonNames>"@.len());
    assert("mediavault:AlbumName=\""@.len() != "<dc:title>"@.len());
    assert("mediavault:AlbumName=\""@.len() != "</dc:title>"@.len());
    assert("mediavault:AlbumName=\""@.len() != "<dc:description>"@.len());
    assert("mediavault:AlbumName=\""@.len() != "</dc:description>"@.len());
    assert("mediavault:AlbumName=\""@.len() != "<dc:subject>"@.len());
    assert("mediavault:AlbumName=\""@.len() != "</dc:subject>"@.len());
    assert("mediavault:AlbumName=\""@.len() != "<mediavault:PersonNames>"@.len());
    assert("mediavault:AlbumName=\""@.len() != "</mediavault:PersonNames>"@.len());
}

} // verus!
