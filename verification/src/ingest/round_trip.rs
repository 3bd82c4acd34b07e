//! Law of the XMP sidecar: parsing what rendering wrote gives the fields
//! back.
//!
//! The proof follows the scanner through the rendered packet: each search
//! for a tag or an attribute stops at the place rendering put it, because no
//! earlier piece of the packet can hold it.

use crate::ingest::escape::{
    lemma_decode_encode, lemma_encode_tokens, lemma_literals, spec_entity, spec_kind,
    spec_no_entity_at, spec_no_entity_text, spec_token, spec_tokens,
};
use crate::ingest::packet_scan::{
    lemma_attr_needles, lemma_clean_alt_close, lemma_clean_alt_open, lemma_clean_bag_close,
    lemma_clean_bag_open, lemma_clean_close_attrs, lemma_clean_description_close,
    lemma_clean_description_open, lemma_clean_footer, lemma_clean_header, lemma_clean_indent,
    lemma_clean_item_close, lemma_clean_item_open, lemma_clean_key_album, lemma_clean_key_date,
    lemma_clean_key_lat, lemma_clean_key_lon, lemma_clean_key_notes, lemma_clean_line_start,
    lemma_clean_persons_close, lemma_clean_persons_open, lemma_clean_quote,
    lemma_clean_subject_close, lemma_clean_subject_open, lemma_clean_title_close,
    lemma_clean_title_open, lemma_find_absent, lemma_find_first, lemma_key_pieces,
    lemma_needles_distinct, lemma_no_start_boundary, lemma_no_start_empty, lemma_no_start_join,
    lemma_no_start_lacks, lemma_no_start_value, lemma_scan_needles, lemma_tag_literals,
    lemma_tag_needle, spec_lacks, spec_no_start, spec_scan_needle, spec_tag_needle,
};
use crate::ingest::sidecar::{
    or_else, spec_album_line, spec_attr_line, spec_attrs, spec_close_tag, spec_date_line,
    spec_decode_xml, spec_description_element, spec_elements, spec_encode_xml, spec_extract_alt,
    spec_extract_attr, spec_extract_bag, spec_extract_simple, spec_first_li, spec_footer,
    spec_gps_lines, spec_header, spec_li_bounds, spec_li_items, spec_li_lines, spec_notes_line,
    spec_open_tag, spec_parse, spec_persons_element, spec_render, spec_subject_element,
    spec_title_element, SpecXmp,
};
use crate::text::{
    spec_is_whitespace, spec_lead_ws, spec_occurs_at, spec_replace, spec_trail_ws, spec_trim,
};
use vstd::prelude::*;

verus! {

// ---------------------------------------------------------- replacing facts

/// Replacing passes over a front piece that lacks the pattern's first
/// character.
proof fn lemma_replace_front(w: Seq<char>, x: Seq<char>, pat: Seq<char>, rep: Seq<char>)
    requires
        pat.len() > 0,
        spec_lacks(w, pat[0]),
    ensures
        spec_replace(w + x, pat, rep) == w + spec_replace(x, pat, rep),
    decreases w.len(),
{
    if w.len() == 0 {
        assert(w + x =~= x);
    } else {
        let s = w + x;
        if pat.is_prefix_of(s) {
            assert(s.subrange(0, pat.len() as int)[0] == s[0]);
        }
        assert(s.drop_first() =~= w.drop_first() + x);
        lemma_replace_front(w.drop_first(), x, pat, rep);
        assert(seq![s[0]] + (w.drop_first() + spec_replace(x, pat, rep)) =~= w + spec_replace(x, pat, rep));
    }
}

/// Replacing splits at a character that only the pattern's first position
/// could match.
proof fn lemma_replace_split(x: Seq<char>, y: Seq<char>, pat: Seq<char>, rep: Seq<char>)
    requires
        pat.len() > 0,
        y.len() > 0,
        forall|k: int| 1 <= k < pat.len() ==> pat[k] != y[0],
    ensures
        spec_replace(x + y, pat, rep) == spec_replace(x, pat, rep) + spec_replace(y, pat, rep),
    decreases x.len(),
{
    let s = x + y;
    if x.len() == 0 {
        assert(s =~= y);
        assert(spec_replace(x, pat, rep) =~= Seq::<char>::empty());
    } else if pat.is_prefix_of(s) {
        if pat.len() > x.len() {
            assert(s.subrange(0, pat.len() as int)[x.len() as int] == y[0]);
        }
        assert(pat =~= x.subrange(0, pat.len() as int)) by {
            assert forall|q: int| 0 <= q < pat.len() implies pat[q] == x[q] by {
                assert(s.subrange(0, pat.len() as int)[q] == s[q]);
            }
        }
        assert(pat.is_prefix_of(x));
        let x2 = x.subrange(pat.len() as int, x.len() as int);
        assert(s.subrange(pat.len() as int, s.len() as int) =~= x2 + y);
        lemma_replace_split(x2, y, pat, rep);
        assert(rep + (spec_replace(x2, pat, rep) + spec_replace(y, pat, rep)) =~= (rep + spec_replace(
            x2,
            pat,
            rep,
        )) + spec_replace(y, pat, rep));
    } else {
        if pat.is_prefix_of(x) {
            assert(pat =~= s.subrange(0, pat.len() as int)) by {
                assert forall|q: int| 0 <= q < pat.len() implies pat[q] == s[q] by {
                    assert(x.subrange(0, pat.len() as int)[q] == x[q]);
                }
            }
        }
        assert(s.drop_first() =~= x.drop_first() + y);
        lemma_replace_split(x.drop_first(), y, pat, rep);
        assert(seq![x[0]] + (spec_replace(x.drop_first(), pat, rep) + spec_replace(y, pat, rep))
            =~= (seq![x[0]] + spec_replace(x.drop_first(), pat, rep)) + spec_replace(y, pat, rep));
    }
}

/// Replacing leaves a text alone in which the pattern never occurs.
proof fn lemma_replace_none(s: Seq<char>, pat: Seq<char>, rep: Seq<char>)
    requires
        pat.len() > 0,
        forall|i: int| 0 <= i < s.len() ==> !pat.is_prefix_of(#[trigger] s.subrange(i, s.len() as int)),
    ensures
        spec_replace(s, pat, rep) == s,
    decreases s.len(),
{
    if s.len() > 0 {
        assert(s.subrange(0, s.len() as int) =~= s);
        let t = s.drop_first();
        assert forall|i: int| 0 <= i < t.len() implies !pat.is_prefix_of(#[trigger] t.subrange(i, t.len() as int)) by {
            assert(t.subrange(i, t.len() as int) =~= s.subrange(i + 1, s.len() as int));
        }
        lemma_replace_none(t, pat, rep);
        assert(seq![s[0]] + t =~= s);
    }
}

// ----------------------------------------------------------- decoding facts

/// Whether `c` appears in none of the entity references after their `&`.
pub open spec fn spec_entity_stop(c: char) -> bool {
    c != 'a' && c != 'm' && c != 'p' && c != ';' && c != 'l' && c != 't' && c != 'g' && c != 'q'
        && c != 'u' && c != 'o' && c != 's'
}

proof fn lemma_entities()
    ensures
        forall|k: int| 1 <= k <= 5 ==> (#[trigger] spec_entity(k)).len() > 0 && spec_entity(k)[0] == '&',
        forall|k: int, q: int|
            1 <= k <= 5 && 1 <= q < spec_entity(k).len() ==> !spec_entity_stop(#[trigger] spec_entity(k)[q]),
{
    lemma_literals();
}

/// Decoding passes over a front piece without `&`.
proof fn lemma_decode_front(w: Seq<char>, x: Seq<char>)
    requires
        spec_lacks(w, '&'),
    ensures
        spec_decode_xml(w + x) == w + spec_decode_xml(x),
{
    lemma_entities();
    assert(spec_entity(1) == "&lt;"@ && spec_entity(2) == "&gt;"@ && spec_entity(3) == "&quot;"@
        && spec_entity(4) == "&apos;"@ && spec_entity(5) == "&amp;"@);
    let x1 = spec_replace(x, "&lt;"@, "<"@);
    let x2 = spec_replace(x1, "&gt;"@, ">"@);
    let x3 = spec_replace(x2, "&quot;"@, "\""@);
    let x4 = spec_replace(x3, "&apos;"@, "'"@);
    lemma_replace_front(w, x, "&lt;"@, "<"@);
    lemma_replace_front(w, x1, "&gt;"@, ">"@);
    lemma_replace_front(w, x2, "&quot;"@, "\""@);
    lemma_replace_front(w, x3, "&apos;"@, "'"@);
    lemma_replace_front(w, x4, "&amp;"@, "&"@);
}

/// A replacement keeps a stop character in front.
proof fn lemma_replace_head(y: Seq<char>, pat: Seq<char>, rep: Seq<char>)
    requires
        pat.len() > 0,
        rep.len() > 0,
        y.len() > 0,
        spec_entity_stop(y[0]),
        spec_entity_stop(rep[0]),
    ensures
        spec_replace(y, pat, rep).len() > 0,
        spec_entity_stop(spec_replace(y, pat, rep)[0]),
{
    if pat.is_prefix_of(y) {
        let r = spec_replace(y.subrange(pat.len() as int, y.len() as int), pat, rep);
        assert(spec_replace(y, pat, rep) == rep + r);
        assert((rep + r)[0] == rep[0]);
    } else {
        let r = spec_replace(y.drop_first(), pat, rep);
        assert(spec_replace(y, pat, rep) == seq![y[0]] + r);
        assert((seq![y[0]] + r)[0] == y[0]);
    }
}

/// Decoding splits before a character that ends no entity reference.
proof fn lemma_decode_split(x: Seq<char>, y: Seq<char>)
    requires
        y.len() > 0,
        spec_entity_stop(y[0]),
    ensures
        spec_decode_xml(x + y) == spec_decode_xml(x) + spec_decode_xml(y),
{
    lemma_entities();
    lemma_literals();
    assert(spec_entity(1) == "&lt;"@ && spec_entity(2) == "&gt;"@ && spec_entity(3) == "&quot;"@
        && spec_entity(4) == "&apos;"@ && spec_entity(5) == "&amp;"@);
    let x1 = spec_replace(x, "&lt;"@, "<"@);
    let y1 = spec_replace(y, "&lt;"@, "<"@);
    lemma_replace_split(x, y, "&lt;"@, "<"@);
    lemma_replace_head(y, "&lt;"@, "<"@);
    let x2 = spec_replace(x1, "&gt;"@, ">"@);
    let y2 = spec_replace(y1, "&gt;"@, ">"@);
    lemma_replace_split(x1, y1, "&gt;"@, ">"@);
    lemma_replace_head(y1, "&gt;"@, ">"@);
    let x3 = spec_replace(x2, "&quot;"@, "\""@);
    let y3 = spec_replace(y2, "&quot;"@, "\""@);
    lemma_replace_split(x2, y2, "&quot;"@, "\""@);
    lemma_replace_head(y2, "&quot;"@, "\""@);
    let x4 = spec_replace(x3, "&apos;"@, "'"@);
    let y4 = spec_replace(y3, "&apos;"@, "'"@);
    lemma_replace_split(x3, y3, "&apos;"@, "'"@);
    lemma_replace_head(y3, "&apos;"@, "'"@);
    lemma_replace_split(x4, y4, "&amp;"@, "&"@);
}

/// Decoding leaves a text without `&` alone.
proof fn lemma_decode_absent(s: Seq<char>)
    requires
        spec_lacks(s, '&'),
    ensures
        spec_decode_xml(s) == s,
{
    lemma_decode_front(s, Seq::empty());
    assert(s + Seq::<char>::empty() =~= s);
    assert(spec_replace(Seq::<char>::empty(), "&lt;"@, "<"@) =~= Seq::<char>::empty());
    assert(spec_decode_xml(Seq::<char>::empty()) =~= Seq::<char>::empty());
}

// ---------------------------------------------------------- encoding facts

proof fn lemma_tokens_concat(a: Seq<char>, b: Seq<char>)
    ensures
        spec_tokens(0, a + b) == spec_tokens(0, a) + spec_tokens(0, b),
    decreases a.len(),
{
    if a.len() == 0 {
        assert(a + b =~= b);
        assert(spec_tokens(0, a) =~= Seq::<char>::empty());
    } else {
        assert((a + b).drop_first() =~= a.drop_first() + b);
        lemma_tokens_concat(a.drop_first(), b);
        assert((a + b)[0] == a[0]);
        assert(spec_token(0, a[0]) + (spec_tokens(0, a.drop_first()) + spec_tokens(0, b)) =~= (spec_token(
            0,
            a[0],
        ) + spec_tokens(0, a.drop_first())) + spec_tokens(0, b));
    }
}

/// The escaped text holds none of `<`, `>`, `"` and `'`.
proof fn lemma_encode_lacks(s: Seq<char>)
    ensures
        spec_lacks(spec_encode_xml(s), '<'),
        spec_lacks(spec_encode_xml(s), '>'),
        spec_lacks(spec_encode_xml(s), '"'),
        spec_lacks(spec_encode_xml(s), '\''),
{
    lemma_encode_tokens(s);
    lemma_tokens_lack(s);
}

proof fn lemma_tokens_lack(s: Seq<char>)
    ensures
        forall|i: int|
            0 <= i < spec_tokens(0, s).len() ==> spec_kind(#[trigger] spec_tokens(0, s)[i]) == 0 || spec_tokens(
                0,
                s,
            )[i] == '&',
    decreases s.len(),
{
    lemma_literals();
    if s.len() > 0 {
        lemma_tokens_lack(s.drop_first());
        let w = spec_token(0, s[0]);
        let r = spec_tokens(0, s.drop_first());
        assert(spec_tokens(0, s) == w + r);
        assert forall|i: int| 0 <= i < w.len() implies spec_kind(#[trigger] w[i]) == 0 || w[i] == '&' by {
        }
        assert forall|i: int| 0 <= i < (w + r).len() implies spec_kind(#[trigger] (w + r)[i]) == 0 || (w
            + r)[i] == '&' by {
            if i >= w.len() {
                assert((w + r)[i] == r[i - w.len()]);
            } else {
                assert((w + r)[i] == w[i]);
            }
        }
    }
}

/// A tail of plain characters of the escaped text is a tail of the text.
proof fn lemma_encode_suffix(s: Seq<char>, y: Seq<char>)
    requires
        forall|i: int| 0 <= i < y.len() ==> spec_kind(#[trigger] y[i]) == 0 && y[i] != ';',
        y.is_suffix_of(spec_encode_xml(s)),
    ensures
        y.is_suffix_of(s),
{
    lemma_encode_tokens(s);
    lemma_tokens_suffix(s, y);
}

proof fn lemma_tokens_suffix(s: Seq<char>, y: Seq<char>)
    requires
        forall|i: int| 0 <= i < y.len() ==> spec_kind(#[trigger] y[i]) == 0 && y[i] != ';',
        y.is_suffix_of(spec_tokens(0, s)),
    ensures
        y.is_suffix_of(s),
    decreases s.len(),
{
    lemma_literals();
    if y.len() == 0 {
        assert(y =~= s.subrange(s.len() as int, s.len() as int));
    } else if s.len() == 0 {
        assert(spec_tokens(0, s).len() == 0);
    } else {
        let a = s.drop_last();
        let c = s.last();
        assert(s =~= a + seq![c]);
        lemma_tokens_concat(a, seq![c]);
        assert(seq![c].drop_first() =~= Seq::<char>::empty());
        assert(spec_tokens(0, seq![c]) == spec_token(0, c) + spec_tokens(0, Seq::<char>::empty()));
        assert(spec_tokens(0, seq![c]) =~= spec_token(0, c));
        let t = spec_tokens(0, s);
        let ta = spec_tokens(0, a);
        let w = spec_token(0, c);
        assert(t == ta + w);
        assert(y.last() == t.last());
        assert(t.last() == w.last());
        if spec_kind(c) != 0 {
            assert(w.last() == ';');
        }
        assert(w =~= seq![c]);
        let y2 = y.drop_last();
        assert(y2.is_suffix_of(ta)) by {
            assert forall|q: int| 0 <= q < y2.len() implies y2[q] == ta[ta.len() - y2.len() + q] by {
                assert(y[q] == t[t.len() - y.len() + q]);
            }
            assert(y2 =~= ta.subrange(ta.len() - y2.len(), ta.len() as int));
        }
        lemma_tokens_suffix(a, y2);
        assert(y =~= s.subrange(s.len() - y.len(), s.len() as int)) by {
            assert forall|q: int| 0 <= q < y.len() implies y[q] == s[s.len() - y.len() + q] by {
                if q < y2.len() {
                    assert(y2[q] == a[a.len() - y2.len() + q]);
                }
            }
        }
    }
}

/// Decoding leaves a text alone that holds no entity reference.
proof fn lemma_decode_plain(t: Seq<char>)
    requires
        spec_no_entity_text(t),
    ensures
        spec_decode_xml(t) == t,
{
    lemma_literals();
    assert forall|i: int| 0 <= i < t.len() implies !"&lt;"@.is_prefix_of(#[trigger] t.subrange(i, t.len() as int)) by {
        assert(spec_no_entity_at(t.subrange(i, t.len() as int)));
    }
    lemma_replace_none(t, "&lt;"@, "<"@);
    assert forall|i: int| 0 <= i < t.len() implies !"&gt;"@.is_prefix_of(#[trigger] t.subrange(i, t.len() as int)) by {
        assert(spec_no_entity_at(t.subrange(i, t.len() as int)));
    }
    lemma_replace_none(t, "&gt;"@, ">"@);
    assert forall|i: int| 0 <= i < t.len() implies !"&quot;"@.is_prefix_of(#[trigger] t.subrange(i, t.len() as int)) by {
        assert(spec_no_entity_at(t.subrange(i, t.len() as int)));
    }
    lemma_replace_none(t, "&quot;"@, "\""@);
    assert forall|i: int| 0 <= i < t.len() implies !"&apos;"@.is_prefix_of(#[trigger] t.subrange(i, t.len() as int)) by {
        assert(spec_no_entity_at(t.subrange(i, t.len() as int)));
    }
    lemma_replace_none(t, "&apos;"@, "'"@);
    assert forall|i: int| 0 <= i < t.len() implies !"&amp;"@.is_prefix_of(#[trigger] t.subrange(i, t.len() as int)) by {
        assert(spec_no_entity_at(t.subrange(i, t.len() as int)));
    }
    lemma_replace_none(t, "&amp;"@, "&"@);
}

/// Trimming leaves a text alone that starts and ends with non-space.
proof fn lemma_trim_id(s: Seq<char>)
    requires
        s.len() > 0,
        !spec_is_whitespace(s[0]),
        !spec_is_whitespace(s.last()),
    ensures
        spec_trim(s) == s,
{
    assert(spec_lead_ws(s) == 0);
    assert(s.subrange(0, s.len() as int) =~= s);
    assert(spec_trail_ws(s) == 0);
    assert(s.subrange(0, s.len() as int) =~= s);
}

// ------------------------------------------------------------- extraction

/// `<tag>inner</tag>` right after `p`: the element's text is `inner`.
proof fn lemma_extract_simple_at(r: Seq<char>, p: Seq<char>, tag: Seq<char>, inner: Seq<char>, q: Seq<char>)
    requires
        r == p + spec_open_tag(tag) + inner + spec_close_tag(tag) + q,
        spec_no_start(p, spec_open_tag(tag) + inner + spec_close_tag(tag) + q, spec_open_tag(tag)),
        spec_no_start(inner, spec_close_tag(tag) + q, spec_close_tag(tag)),
    ensures
        spec_extract_simple(r, tag) == Some(spec_decode_xml(spec_trim(inner))),
{
    let open = spec_open_tag(tag);
    let close = spec_close_tag(tag);
    let rest = open + inner + close + q;
    assert(r =~= p + rest);
    assert(rest.subrange(0, open.len() as int) =~= open);
    lemma_find_first(p, rest, open);
    let after = r.subrange((p.len() + open.len()) as int, r.len() as int);
    assert(after =~= inner + (close + q));
    assert((close + q).subrange(0, close.len() as int) =~= close);
    lemma_find_first(inner, close + q, close);
    assert(after.subrange(0, inner.len() as int) =~= inner);
}

/// No `<tag>` anywhere: no element.
proof fn lemma_extract_simple_absent(r: Seq<char>, tag: Seq<char>)
    requires
        spec_no_start(r, Seq::empty(), spec_open_tag(tag)),
    ensures
        spec_extract_simple(r, tag) is None,
{
    reveal_strlit("<");
    lemma_find_absent(r, spec_open_tag(tag));
}

/// `key="v"` right after `p`: the attribute's value is `v`.
proof fn lemma_extract_attr_at(r: Seq<char>, p: Seq<char>, key: Seq<char>, v: Seq<char>, q: Seq<char>)
    requires
        r == p + (key + "=\""@) + v + "\""@ + q,
        spec_no_start(p, (key + "=\""@) + v + "\""@ + q, key + "=\""@),
        spec_lacks(v, '"'),
    ensures
        spec_extract_attr(r, key) == Some(spec_decode_xml(v)),
{
    reveal_strlit("\"");
    let needle = key + "=\""@;
    let rest = needle + v + "\""@ + q;
    assert(r =~= p + rest);
    assert(rest.subrange(0, needle.len() as int) =~= needle);
    lemma_find_first(p, rest, needle);
    let after = r.subrange((p.len() + needle.len()) as int, r.len() as int);
    assert(after =~= v + ("\""@ + q));
    assert(("\""@ + q).subrange(0, 1) =~= "\""@);
    lemma_no_start_lacks(v, "\""@ + q, "\""@);
    lemma_find_first(v, "\""@ + q, "\""@);
    assert(after.subrange(0, v.len() as int) =~= v);
}

/// No `key="` anywhere: no attribute.
proof fn lemma_extract_attr_absent(r: Seq<char>, key: Seq<char>)
    requires
        spec_no_start(r, Seq::empty(), key + "=\""@),
    ensures
        spec_extract_attr(r, key) is None,
{
    reveal_strlit("=\"");
    lemma_find_absent(r, key + "=\""@);
}

// ------------------------------------------------------- the packet's parts

/// Whether `v` is plain text: none of `&`, `<`, `>`, `"`, `'` and `=`.
pub open spec fn spec_plain_text(v: Seq<char>) -> bool {
    forall|i: int| 0 <= i < v.len() ==> spec_kind(#[trigger] v[i]) == 0 && v[i] != '='
}

/// Whether the attribute value `v` ends with `key=`, so that `key="`
/// would be read at its closing quote.
pub open spec fn spec_ends_with_key(v: Seq<char>, key: Seq<char>) -> bool {
    (key + "="@).is_suffix_of(v)
}

proof fn lemma_plain_lacks(v: Seq<char>)
    requires
        spec_plain_text(v),
    ensures
        spec_lacks(v, '<'),
        spec_lacks(v, '"'),
        spec_lacks(v, '&'),
        spec_lacks(v, '='),
{
}

/// An escaped element text, followed by a tag, starts no needle.
proof fn lemma_clean_element_text(s: Seq<char>, rest: Seq<char>, n: Seq<char>)
    requires
        spec_scan_needle(n),
        rest.len() > 0,
        rest[0] == '<',
    ensures
        spec_no_start(spec_encode_xml(s), rest, n),
{
    lemma_encode_lacks(s);
    lemma_scan_needles();
    let e = spec_encode_xml(s);
    if n[0] == '<' {
        lemma_no_start_lacks(e, rest, n);
    } else {
        assert(n[n.len() - 1] == '"');
        assert forall|j: int| 0 <= j && j + n.len() <= e.len() implies !spec_occurs_at(e, n, j) by {
            if spec_occurs_at(e, n, j) {
                assert(e.subrange(j, j + n.len())[n.len() - 1] == e[j + n.len() - 1]);
            }
        }
        lemma_no_start_boundary(e, rest, n);
    }
}

/// An attribute value without `<` and quotes, before its closing quote,
/// starts no needle but `key="` for a `key=` it ends with.
proof fn lemma_clean_attr_value(v: Seq<char>, rest: Seq<char>, n: Seq<char>)
    requires
        spec_scan_needle(n),
        spec_lacks(v, '<'),
        spec_lacks(v, '"'),
        n[0] != '<' ==> !n.drop_last().is_suffix_of(v),
    ensures
        spec_no_start(v, "\""@ + rest, n),
{
    lemma_scan_needles();
    reveal_strlit("\"");
    assert("\""@ =~= seq!['"']);
    if n[0] == '<' {
        lemma_no_start_lacks(v, "\""@ + rest, n);
    } else {
        let w = n.drop_last();
        assert(n =~= w + seq!['"']);
        assert(spec_lacks(w, '"'));
        lemma_no_start_value(v, rest, w);
    }
}

/// A plain value ends with no `key=`.
proof fn lemma_plain_no_key(v: Seq<char>, n: Seq<char>)
    requires
        spec_plain_text(v),
        spec_scan_needle(n),
        n[0] != '<',
    ensures
        !n.drop_last().is_suffix_of(v),
{
    lemma_scan_needles();
    let w = n.drop_last();
    assert(w[w.len() - 1] == '=');
    if w.is_suffix_of(v) {
        assert(v.subrange(v.len() - w.len(), v.len() as int)[w.len() - 1] == v[v.len() - 1]);
    }
}

/// The escaped value ends with `key=` only if the value does.
proof fn lemma_encoded_no_key(v: Seq<char>, n: Seq<char>)
    requires
        spec_scan_needle(n),
        n[0] != '<',
        !n.drop_last().is_suffix_of(v),
    ensures
        !n.drop_last().is_suffix_of(spec_encode_xml(v)),
{
    lemma_scan_needles();
    let w = n.drop_last();
    assert forall|i: int| 0 <= i < w.len() implies spec_kind(#[trigger] w[i]) == 0 && w[i] != ';' by {
        assert(w[i] == n[i]);
    }
    if w.is_suffix_of(spec_encode_xml(v)) {
        lemma_encode_suffix(v, w);
    }
}

/// An attribute line starts no needle that its key part and its value do
/// not start.
proof fn lemma_clean_attr_line(key: Seq<char>, v: Seq<char>, rest: Seq<char>, n: Seq<char>)
    requires
        spec_scan_needle(n),
        spec_no_start(("\n        "@ + key) + "=\""@, v + ("\""@ + rest), n),
        spec_no_start(v, "\""@ + rest, n),
    ensures
        spec_no_start(spec_attr_line(key, v), rest, n),
{
    let kp = ("\n        "@ + key) + "=\""@;
    lemma_no_start_join(kp, v, "\""@ + rest, n);
    lemma_clean_quote(rest, n);
    lemma_no_start_join(kp + v, "\""@, rest, n);
    assert(spec_attr_line(key, v) =~= (kp + v) + "\""@);
}

/// The GPS lines start no needle but their own keys.
proof fn lemma_clean_gps_lines(x: SpecXmp, rest: Seq<char>, n: Seq<char>)
    requires
        spec_scan_needle(n),
        x.gps matches Some((la, lo)) ==> spec_plain_text(la) && spec_plain_text(lo) && n
            != "exif:GPSLatitude=\""@ && n != "exif:GPSLongitude=\""@,
    ensures
        spec_no_start(spec_gps_lines(x), rest, n),
{
    lemma_scan_needles();
    match x.gps {
        Some((la, lo)) => {
            lemma_key_pieces();
            lemma_plain_lacks(la);
            lemma_plain_lacks(lo);
            if n[0] != '<' {
                lemma_plain_no_key(la, n);
                lemma_plain_no_key(lo, n);
            }
            let lon = spec_attr_line("exif:GPSLongitude"@, lo);
            lemma_clean_key_lat(la + ("\""@ + (lon + rest)), n);
            lemma_clean_attr_value(la, lon + rest, n);
            lemma_clean_attr_line("exif:GPSLatitude"@, la, lon + rest, n);
            lemma_clean_key_lon(lo + ("\""@ + rest), n);
            lemma_clean_attr_value(lo, rest, n);
            lemma_clean_attr_line("exif:GPSLongitude"@, lo, rest, n);
            lemma_no_start_join(spec_attr_line("exif:GPSLatitude"@, la), lon, rest, n);
        },
        None => {
            lemma_no_start_empty(rest, n);
        },
    }
}

/// The album line starts no needle but its own key, nor one whose `key=`
/// the album ends with.
proof fn lemma_clean_album_line(x: SpecXmp, rest: Seq<char>, n: Seq<char>)
    requires
        spec_scan_needle(n),
        x.album matches Some(a) ==> n != "mediavault:AlbumName=\""@ && (n[0] != '<'
            ==> !n.drop_last().is_suffix_of(a)),
    ensures
        spec_no_start(spec_album_line(x), rest, n),
{
    lemma_scan_needles();
    match x.album {
        Some(a) => {
            lemma_key_pieces();
            let e = spec_encode_xml(a);
            lemma_encode_lacks(a);
            if n[0] != '<' {
                lemma_encoded_no_key(a, n);
            }
            lemma_clean_key_album(e + ("\""@ + rest), n);
            lemma_clean_attr_value(e, rest, n);
            lemma_clean_attr_line("mediavault:AlbumName"@, e, rest, n);
        },
        None => {
            lemma_no_start_empty(rest, n);
        },
    }
}

/// The notes line starts no needle but its own key, nor one whose `key=`
/// the notes end with.
proof fn lemma_clean_notes_line(x: SpecXmp, rest: Seq<char>, n: Seq<char>)
    requires
        spec_scan_needle(n),
        x.notes matches Some(a) ==> n != "photoshop:Instructions=\""@ && (n[0] != '<'
            ==> !n.drop_last().is_suffix_of(a)),
    ensures
        spec_no_start(spec_notes_line(x), rest, n),
{
    lemma_scan_needles();
    match x.notes {
        Some(a) => {
            lemma_key_pieces();
            let e = spec_encode_xml(a);
            lemma_encode_lacks(a);
            if n[0] != '<' {
                lemma_encoded_no_key(a, n);
            }
            lemma_clean_key_notes(e + ("\""@ + rest), n);
            lemma_clean_attr_value(e, rest, n);
            lemma_clean_attr_line("photoshop:Instructions"@, e, rest, n);
        },
        None => {
            lemma_no_start_empty(rest, n);
        },
    }
}

/// The date line starts no needle but its own key.
proof fn lemma_clean_date_line(x: SpecXmp, rest: Seq<char>, n: Seq<char>)
    requires
        spec_scan_needle(n),
        x.date_created matches Some(d) ==> spec_plain_text(d) && n != "xmp:CreateDate=\""@,
    ensures
        spec_no_start(spec_date_line(x), rest, n),
{
    lemma_scan_needles();
    match x.date_created {
        Some(d) => {
            lemma_key_pieces();
            lemma_plain_lacks(d);
            if n[0] != '<' {
                lemma_plain_no_key(d, n);
            }
            lemma_clean_key_date(d + ("\""@ + rest), n);
            lemma_clean_attr_value(d, rest, n);
            lemma_clean_attr_line("xmp:CreateDate"@, d, rest, n);
        },
        None => {
            lemma_no_start_empty(rest, n);
        },
    }
}

/// The title element starts no needle but its own tags.
proof fn lemma_clean_title_element(x: SpecXmp, rest: Seq<char>, n: Seq<char>)
    requires
        spec_scan_needle(n),
        x.title is Some ==> n != "<dc:title>"@ && n != "</dc:title>"@,
    ensures
        spec_no_start(spec_title_element(x), rest, n),
{
    match x.title {
        Some(t) => {
            let a = "      <dc:title><rdf:Alt><rdf:li xml:lang=\"x-default\">"@;
            let b = "</rdf:li></rdf:Alt></dc:title>\n"@;
            let e = spec_encode_xml(t);
            reveal_strlit("</rdf:li></rdf:Alt></dc:title>\n");
            lemma_clean_title_open(e + (b + rest), n);
            lemma_clean_element_text(t, b + rest, n);
            lemma_no_start_join(a, e, b + rest, n);
            lemma_clean_title_close(rest, n);
            lemma_no_start_join(a + e, b, rest, n);
        },
        None => {
            lemma_no_start_empty(rest, n);
        },
    }
}

/// The description element starts no needle but its own tags.
proof fn lemma_clean_description_element(x: SpecXmp, rest: Seq<char>, n: Seq<char>)
    requires
        spec_scan_needle(n),
        x.description is Some ==> n != "<dc:description>"@ && n != "</dc:description>"@,
    ensures
        spec_no_start(spec_description_element(x), rest, n),
{
    match x.description {
        Some(t) => {
            let a = "      <dc:description><rdf:Alt><rdf:li xml:lang=\"x-default\">"@;
            let b = "</rdf:li></rdf:Alt></dc:description>\n"@;
            let e = spec_encode_xml(t);
            reveal_strlit("</rdf:li></rdf:Alt></dc:description>\n");
            lemma_clean_description_open(e + (b + rest), n);
            lemma_clean_element_text(t, b + rest, n);
            lemma_no_start_join(a, e, b + rest, n);
            lemma_clean_description_close(rest, n);
            lemma_no_start_join(a + e, b, rest, n);
        },
        None => {
            lemma_no_start_empty(rest, n);
        },
    }
}

/// The list items start no needle.
proof fn lemma_clean_li_lines(items: Seq<Seq<char>>, rest: Seq<char>, n: Seq<char>)
    requires
        spec_scan_needle(n),
    ensures
        spec_no_start(spec_li_lines(items), rest, n),
    decreases items.len(),
{
    if items.len() == 0 {
        lemma_no_start_empty(rest, n);
    } else {
        let init = spec_li_lines(items.drop_last());
        let a = "        <rdf:li>"@;
        let e = spec_encode_xml(items.last());
        let b = "</rdf:li>\n"@;
        reveal_strlit("</rdf:li>\n");
        lemma_clean_li_lines(items.drop_last(), a + (e + (b + rest)), n);
        lemma_clean_item_open(e + (b + rest), n);
        lemma_no_start_join(init, a, e + (b + rest), n);
        lemma_clean_element_text(items.last(), b + rest, n);
        lemma_no_start_join(init + a, e, b + rest, n);
        lemma_clean_item_close(rest, n);
        lemma_no_start_join(init + a + e, b, rest, n);
    }
}

/// The subject element starts no needle but its own tags.
proof fn lemma_clean_subject_element(x: SpecXmp, rest: Seq<char>, n: Seq<char>)
    requires
        spec_scan_needle(n),
        x.tags.len() > 0 ==> n != "<dc:subject>"@ && n != "</dc:subject>"@,
    ensures
        spec_no_start(spec_subject_element(x), rest, n),
{
    if x.tags.len() > 0 {
        let a = "      <dc:subject><rdf:Bag>\n"@;
        let l = spec_li_lines(x.tags);
        let b = "      </rdf:Bag></dc:subject>\n"@;
        lemma_clean_subject_open(l + (b + rest), n);
        lemma_clean_li_lines(x.tags, b + rest, n);
        lemma_no_start_join(a, l, b + rest, n);
        lemma_clean_subject_close(rest, n);
        lemma_no_start_join(a + l, b, rest, n);
    } else {
        lemma_no_start_empty(rest, n);
    }
}

/// The persons element starts no needle but its own tags.
proof fn lemma_clean_persons_element(x: SpecXmp, rest: Seq<char>, n: Seq<char>)
    requires
        spec_scan_needle(n),
        x.persons.len() > 0 ==> n != "<mediavault:PersonNames>"@ && n != "</mediavault:PersonNames>"@,
    ensures
        spec_no_start(spec_persons_element(x), rest, n),
{
    if x.persons.len() > 0 {
        let a = "      <mediavault:PersonNames><rdf:Bag>\n"@;
        let l = spec_li_lines(x.persons);
        let b = "      </rdf:Bag></mediavault:PersonNames>\n"@;
        lemma_clean_persons_open(l + (b + rest), n);
        lemma_clean_li_lines(x.persons, b + rest, n);
        lemma_no_start_join(a, l, b + rest, n);
        lemma_clean_persons_close(rest, n);
        lemma_no_start_join(a + l, b, rest, n);
    } else {
        lemma_no_start_empty(rest, n);
    }
}

/// The attribute lines start no needle that none of their own keys is and
/// none of their escaped values ends with.
proof fn lemma_clean_attrs(x: SpecXmp, rest: Seq<char>, n: Seq<char>)
    requires
        spec_scan_needle(n),
        x.gps matches Some((la, lo)) ==> spec_plain_text(la) && spec_plain_text(lo) && n
            != "exif:GPSLatitude=\""@ && n != "exif:GPSLongitude=\""@,
        x.album matches Some(a) ==> n != "mediavault:AlbumName=\""@ && (n[0] != '<'
            ==> !n.drop_last().is_suffix_of(a)),
        x.notes matches Some(a) ==> n != "photoshop:Instructions=\""@ && (n[0] != '<'
            ==> !n.drop_last().is_suffix_of(a)),
        x.date_created matches Some(d) ==> spec_plain_text(d) && n != "xmp:CreateDate=\""@,
    ensures
        spec_no_start(spec_attrs(x), rest, n),
{
    let g = spec_gps_lines(x);
    let a = spec_album_line(x);
    let o = spec_notes_line(x);
    let d = spec_date_line(x);
    lemma_clean_gps_lines(x, a + (o + (d + rest)), n);
    lemma_clean_album_line(x, o + (d + rest), n);
    lemma_no_start_join(g, a, o + (d + rest), n);
    lemma_clean_notes_line(x, d + rest, n);
    lemma_no_start_join(g + a, o, d + rest, n);
    lemma_clean_date_line(x, rest, n);
    lemma_no_start_join(g + a + o, d, rest, n);
}

/// The elements start no needle that none of their own tags is.
proof fn lemma_clean_elements(x: SpecXmp, rest: Seq<char>, n: Seq<char>)
    requires
        spec_scan_needle(n),
        x.title is Some ==> n != "<dc:title>"@ && n != "</dc:title>"@,
        x.description is Some ==> n != "<dc:description>"@ && n != "</dc:description>"@,
        x.tags.len() > 0 ==> n != "<dc:subject>"@ && n != "</dc:subject>"@,
        x.persons.len() > 0 ==> n != "<mediavault:PersonNames>"@ && n != "</mediavault:PersonNames>"@,
    ensures
        spec_no_start(spec_elements(x), rest, n),
{
    let t = spec_title_element(x);
    let d = spec_description_element(x);
    let s = spec_subject_element(x);
    let p = spec_persons_element(x);
    lemma_clean_title_element(x, d + (s + (p + rest)), n);
    lemma_clean_description_element(x, s + (p + rest), n);
    lemma_no_start_join(t, d, s + (p + rest), n);
    lemma_clean_subject_element(x, p + rest, n);
    lemma_no_start_join(t + d, s, p + rest, n);
    lemma_clean_persons_element(x, rest, n);
    lemma_no_start_join(t + d + s, p, rest, n);
}

/// The header, the attributes and the end of the attribute list start no
/// needle that the attributes do not start.
proof fn lemma_clean_front(x: SpecXmp, rest: Seq<char>, n: Seq<char>)
    requires
        spec_scan_needle(n),
        spec_no_start(spec_attrs(x), ">\n"@ + rest, n),
    ensures
        spec_no_start(spec_header() + spec_attrs(x) + ">\n"@, rest, n),
{
    let h = spec_header();
    let a = spec_attrs(x);
    lemma_clean_header(a + (">\n"@ + rest), n);
    lemma_no_start_join(h, a, ">\n"@ + rest, n);
    lemma_clean_close_attrs(rest, n);
    lemma_no_start_join(h + a, ">\n"@, rest, n);
}

/// A needle that no part of the packet starts does not occur in it.
proof fn lemma_clean_packet(x: SpecXmp, n: Seq<char>)
    requires
        spec_scan_needle(n),
        spec_no_start(spec_attrs(x), ">\n"@ + (spec_elements(x) + spec_footer()), n),
        spec_no_start(spec_elements(x), spec_footer(), n),
    ensures
        spec_no_start(spec_render(x), Seq::empty(), n),
{
    let f = spec_header() + spec_attrs(x) + ">\n"@;
    let e = spec_elements(x);
    lemma_clean_front(x, e + spec_footer(), n);
    lemma_no_start_join(f, e, spec_footer(), n);
    lemma_clean_footer(Seq::empty(), n);
    lemma_no_start_join(f + e, spec_footer(), Seq::empty(), n);
    assert(spec_render(x) =~= f + e + spec_footer());
}

// ------------------------------------------------------- reading elements

/// Whether `t` reads back unchanged as the text of an element: it holds no
/// entity reference, no `</rdf:li>`, and no white space at either end.
pub open spec fn spec_element_text(t: Seq<char>) -> bool {
    &&& spec_no_entity_text(t)
    &&& spec_trim(t) == t
    &&& forall|j: int| 0 <= j && j + "</rdf:li>"@.len() <= t.len() ==> !spec_occurs_at(t, "</rdf:li>"@, j)
}

/// The language alternative around an element text.
pub open spec fn spec_alt(e: Seq<char>) -> Seq<char> {
    "<rdf:Alt><rdf:li xml:lang=\"x-default\">"@ + e + "</rdf:li></rdf:Alt>"@
}

/// An element text reads back as the first item of its language
/// alternative.
proof fn lemma_alt_reads(t: Seq<char>)
    requires
        spec_element_text(t),
    ensures
        spec_first_li(spec_decode_xml(spec_trim(spec_alt(spec_encode_xml(t))))) == Some(t),
{
    let q1 = "<rdf:Alt><rdf:li xml:lang=\"x-default\">"@;
    let q2 = "</rdf:li></rdf:Alt>"@;
    let e = spec_encode_xml(t);
    reveal_strlit("<rdf:Alt><rdf:li xml:lang=\"x-default\">");
    reveal_strlit("</rdf:li></rdf:Alt>");
    reveal_strlit("<rdf:Alt>");
    reveal_strlit("<rdf:li xml:lang=\"x-default\"");
    reveal_strlit("<rdf:li xml:lang=\"x-default\">");
    reveal_strlit("<rdf:li");
    reveal_strlit(">");
    reveal_strlit("</rdf:li>");
    let inner = spec_alt(e);
    lemma_trim_id(inner);
    lemma_decode_front(q1, e + q2);
    lemma_decode_split(e, q2);
    lemma_decode_absent(q2);
    lemma_decode_encode(t);
    assert(q1 + e + q2 =~= q1 + (e + q2));
    let w = q1 + t + q2;
    assert(spec_decode_xml(inner) =~= w);
    // the item's start tag
    let a9 = "<rdf:Alt>"@;
    let li = "<rdf:li"@;
    assert(q1 =~= a9 + "<rdf:li xml:lang=\"x-default\">"@);
    let wrest = "<rdf:li xml:lang=\"x-default\">"@ + t + q2;
    assert(w =~= a9 + wrest);
    assert(wrest.subrange(0, 7) =~= li);
    assert forall|j: int| 0 <= j < a9.len() implies !spec_occurs_at(#[trigger] (a9 + wrest), li, j) by {
        if spec_occurs_at(a9 + wrest, li, j) {
            assert((a9 + wrest).subrange(j, j + 7)[0] == li[0]);
            assert((a9 + wrest).subrange(j, j + 7)[1] == li[1]);
            assert((a9 + wrest).subrange(j, j + 7)[5] == li[5]);
        }
    }
    lemma_find_first(a9, wrest, li);
    // the end of the start tag
    let after = w.subrange(9, w.len() as int);
    let tag = "<rdf:li xml:lang=\"x-default\""@;
    assert(after =~= tag + (">"@ + (t + q2)));
    lemma_no_start_lacks(tag, ">"@ + (t + q2), ">"@);
    assert((">"@ + (t + q2)).subrange(0, 1) =~= ">"@);
    lemma_find_first(tag, ">"@ + (t + q2), ">"@);
    // the end tag
    let after2 = w.subrange(38, w.len() as int);
    assert(after2 =~= t + q2);
    lemma_no_start_boundary(t, q2, "</rdf:li>"@);
    assert(q2.subrange(0, 9) =~= "</rdf:li>"@);
    lemma_find_first(t, q2, "</rdf:li>"@);
    assert(spec_li_bounds(w) == Some((38int, 38 + t.len() as int, 38 + t.len() as int + 9)));
    assert(w.subrange(38, 38 + t.len() as int) =~= t);
    lemma_decode_plain(t);
}

/// A language-alternative element right after `pre` reads back its text.
proof fn lemma_alt_element_reads(r: Seq<char>, pre: Seq<char>, tag: Seq<char>, t: Seq<char>, post: Seq<char>)
    requires
        spec_element_text(t),
        r == pre + spec_open_tag(tag) + spec_alt(spec_encode_xml(t)) + spec_close_tag(tag) + post,
        spec_scan_needle(spec_open_tag(tag)),
        spec_scan_needle(spec_close_tag(tag)),
        spec_no_start(pre, spec_open_tag(tag) + spec_alt(spec_encode_xml(t)) + spec_close_tag(tag) + post, spec_open_tag(tag)),
    ensures
        spec_extract_alt(r, tag) == Some(t),
{
    let q1 = "<rdf:Alt><rdf:li xml:lang=\"x-default\">"@;
    let q2 = "</rdf:li></rdf:Alt>"@;
    let e = spec_encode_xml(t);
    let c = spec_close_tag(tag);
    reveal_strlit("</rdf:li></rdf:Alt>");
    lemma_clean_alt_open(e + (q2 + (c + post)), c);
    lemma_clean_element_text(t, q2 + (c + post), c);
    lemma_no_start_join(q1, e, q2 + (c + post), c);
    lemma_clean_alt_close(c + post, c);
    lemma_no_start_join(q1 + e, q2, c + post, c);
    lemma_extract_simple_at(r, pre, tag, spec_alt(e), post);
    lemma_alt_reads(t);
}

/// The title and description elements, spelled out.
proof fn lemma_alt_pieces()
    ensures
        "      <dc:title><rdf:Alt><rdf:li xml:lang=\"x-default\">"@ == "      "@ + "<dc:title>"@
            + "<rdf:Alt><rdf:li xml:lang=\"x-default\">"@,
        "</rdf:li></rdf:Alt></dc:title>\n"@ == "</rdf:li></rdf:Alt>"@ + "</dc:title>"@ + "\n"@,
        "      <dc:description><rdf:Alt><rdf:li xml:lang=\"x-default\">"@ == "      "@
            + "<dc:description>"@ + "<rdf:Alt><rdf:li xml:lang=\"x-default\">"@,
        "</rdf:li></rdf:Alt></dc:description>\n"@ == "</rdf:li></rdf:Alt>"@ + "</dc:description>"@
            + "\n"@,
{
    reveal_strlit("      <dc:title><rdf:Alt><rdf:li xml:lang=\"x-default\">");
    reveal_strlit("</rdf:li></rdf:Alt></dc:title>\n");
    reveal_strlit("      <dc:description><rdf:Alt><rdf:li xml:lang=\"x-default\">");
    reveal_strlit("</rdf:li></rdf:Alt></dc:description>\n");
    reveal_strlit("      ");
    reveal_strlit("<dc:title>");
    reveal_strlit("</dc:title>");
    reveal_strlit("<dc:description>");
    reveal_strlit("</dc:description>");
    reveal_strlit("<rdf:Alt><rdf:li xml:lang=\"x-default\">");
    reveal_strlit("</rdf:li></rdf:Alt>");
    reveal_strlit("\n");
    assert("      <dc:title><rdf:Alt><rdf:li xml:lang=\"x-default\">"@ =~= "      "@ + "<dc:title>"@
        + "<rdf:Alt><rdf:li xml:lang=\"x-default\">"@);
    assert("</rdf:li></rdf:Alt></dc:title>\n"@ =~= "</rdf:li></rdf:Alt>"@ + "</dc:title>"@ + "\n"@);
    assert("      <dc:description><rdf:Alt><rdf:li xml:lang=\"x-default\">"@ =~= "      "@
        + "<dc:description>"@ + "<rdf:Alt><rdf:li xml:lang=\"x-default\">"@);
    assert("</rdf:li></rdf:Alt></dc:description>\n"@ =~= "</rdf:li></rdf:Alt>"@ + "</dc:description>"@
        + "\n"@);
}

/// The element texts of fields that read back.
proof fn lemma_reads_back_elements(x: SpecXmp)
    requires
        spec_reads_back(x),
    ensures
        x.title matches Some(t) ==> spec_element_text(t),
        x.description matches Some(t) ==> spec_element_text(t),
        forall|i: int| 0 <= i < x.tags.len() ==> spec_element_text(#[trigger] x.tags[i]),
        forall|i: int| 0 <= i < x.persons.len() ==> spec_element_text(#[trigger] x.persons[i]),
{
    reveal(spec_reads_back);
}

/// The header and the attributes start no tag the parser looks for.
proof fn lemma_clean_front_tag(x: SpecXmp, rest: Seq<char>, n: Seq<char>)
    requires
        spec_reads_back(x),
        spec_tag_needle(n),
    ensures
        spec_no_start(spec_header() + spec_attrs(x) + ">\n"@, rest, n),
{
    reveal(spec_reads_back);
    lemma_tag_needle(n);
    lemma_clean_attrs(x, ">\n"@ + rest, n);
    lemma_clean_front(x, rest, n);
}

/// A tag that no element holds occurs nowhere in the packet.
proof fn lemma_tag_absent(x: SpecXmp, n: Seq<char>)
    requires
        spec_reads_back(x),
        spec_tag_needle(n),
        x.title is Some ==> n != "<dc:title>"@ && n != "</dc:title>"@,
        x.description is Some ==> n != "<dc:description>"@ && n != "</dc:description>"@,
        x.tags.len() > 0 ==> n != "<dc:subject>"@ && n != "</dc:subject>"@,
        x.persons.len() > 0 ==> n != "<mediavault:PersonNames>"@ && n != "</mediavault:PersonNames>"@,
    ensures
        spec_no_start(spec_render(x), Seq::empty(), n),
{
    reveal(spec_reads_back);
    lemma_tag_needle(n);
    lemma_clean_attrs(x, ">\n"@ + (spec_elements(x) + spec_footer()), n);
    lemma_clean_elements(x, spec_footer(), n);
    lemma_clean_packet(x, n);
}

/// The title tags, spelled out.
proof fn lemma_open_close_title()
    ensures
        spec_open_tag("dc:title"@) == "<dc:title>"@,
        spec_close_tag("dc:title"@) == "</dc:title>"@,
{
    reveal_strlit("<");
    reveal_strlit(">");
    reveal_strlit("</");
    reveal_strlit("dc:title");
    reveal_strlit("<dc:title>");
    reveal_strlit("</dc:title>");
    assert(spec_open_tag("dc:title"@) =~= "<dc:title>"@);
    assert(spec_close_tag("dc:title"@) =~= "</dc:title>"@);
}

/// The description tags, spelled out.
proof fn lemma_open_close_description()
    ensures
        spec_open_tag("dc:description"@) == "<dc:description>"@,
        spec_close_tag("dc:description"@) == "</dc:description>"@,
{
    reveal_strlit("<");
    reveal_strlit(">");
    reveal_strlit("</");
    reveal_strlit("dc:description");
    reveal_strlit("<dc:description>");
    reveal_strlit("</dc:description>");
    assert(spec_open_tag("dc:description"@) =~= "<dc:description>"@);
    assert(spec_close_tag("dc:description"@) =~= "</dc:description>"@);
}

/// The packet around a title, spelled out.
#[verifier::rlimit(40)]
proof fn lemma_title_shape(x: SpecXmp, t: Seq<char>)
    requires
        x.title == Some(t),
    ensures
        spec_open_tag("dc:title"@) == "<dc:title>"@,
        spec_close_tag("dc:title"@) == "</dc:title>"@,
        spec_render(x) == spec_header() + spec_attrs(x) + ">\n"@ + "      "@ + spec_open_tag("dc:title"@)
            + spec_alt(spec_encode_xml(t)) + spec_close_tag("dc:title"@) + ("\n"@
            + spec_description_element(x) + spec_subject_element(x) + spec_persons_element(x)
            + spec_footer()),
{
    lemma_alt_pieces();
    lemma_open_close_title();
    lemma_render_parts(x);
    let e = spec_encode_xml(t);
    let o = "<dc:title>"@;
    let c = "</dc:title>"@;
    let el = spec_title_element(x);
    assert(el == "      "@ + o + "<rdf:Alt><rdf:li xml:lang=\"x-default\">"@ + e + ("</rdf:li></rdf:Alt>"@ + c + "\n"@));
    assert(el =~= "      "@ + o + spec_alt(e) + c + "\n"@);
    let front = spec_header() + spec_attrs(x) + ">\n"@ + "      "@;
    let back = "\n"@ + spec_description_element(x) + spec_subject_element(x) + spec_persons_element(x) + spec_footer();
    assert(spec_render(x) =~= front + o + spec_alt(e) + c + back);
}

/// The header and the attributes start no title tag.
proof fn lemma_clean_before_title(x: SpecXmp, rest: Seq<char>)
    requires
        spec_reads_back(x),
    ensures
        spec_no_start(spec_header() + spec_attrs(x) + ">\n"@ + "      "@, rest, "<dc:title>"@),
{
    let open = "<dc:title>"@;
    let front = spec_header() + spec_attrs(x) + ">\n"@;
    lemma_tag_needle(open);
    lemma_clean_front_tag(x, "      "@ + rest, open);
    lemma_clean_indent(rest, open);
    lemma_no_start_join(front, "      "@, rest, open);
}

/// A title reads back.
proof fn lemma_title_present(x: SpecXmp, t: Seq<char>)
    requires
        spec_reads_back(x),
        x.title == Some(t),
    ensures
        spec_extract_alt(spec_render(x), "dc:title"@) == Some(t),
{
    lemma_reads_back_elements(x);
    lemma_title_shape(x, t);
    lemma_tag_needle("<dc:title>"@);
    lemma_tag_needle("</dc:title>"@);
    let pre = spec_header() + spec_attrs(x) + ">\n"@ + "      "@;
    let post = "\n"@ + spec_description_element(x) + spec_subject_element(x)
        + spec_persons_element(x) + spec_footer();
    let e = spec_encode_xml(t);
    lemma_clean_before_title(x, "<dc:title>"@ + spec_alt(e) + "</dc:title>"@ + post);
    lemma_alt_element_reads(spec_render(x), pre, "dc:title"@, t, post);
}

/// The title reads back.
proof fn lemma_title_reads(x: SpecXmp)
    requires
        spec_reads_back(x),
    ensures
        spec_extract_alt(spec_render(x), "dc:title"@) == x.title,
{
    match x.title {
        Some(t) => {
            lemma_title_present(x, t);
        },
        None => {
            lemma_tag_literals();
            lemma_needles_distinct();
            lemma_tag_absent(x, "<dc:title>"@);
            lemma_extract_simple_absent(spec_render(x), "dc:title"@);
        },
    }
}

/// The header, the attributes and the title start no description tag.
proof fn lemma_clean_before_description(x: SpecXmp, rest: Seq<char>)
    requires
        spec_reads_back(x),
    ensures
        spec_no_start(
            spec_header() + spec_attrs(x) + ">\n"@ + spec_title_element(x) + "      "@,
            rest,
            "<dc:description>"@,
        ),
{
    let open = "<dc:description>"@;
    let front = spec_header() + spec_attrs(x) + ">\n"@;
    let ti = spec_title_element(x);
    lemma_needles_distinct();
    lemma_tag_needle(open);
    lemma_clean_front_tag(x, ti + ("      "@ + rest), open);
    lemma_clean_title_element(x, "      "@ + rest, open);
    lemma_no_start_join(front, ti, "      "@ + rest, open);
    lemma_clean_indent(rest, open);
    lemma_no_start_join(front + ti, "      "@, rest, open);
}

/// The packet around a description, spelled out.
#[verifier::rlimit(40)]
proof fn lemma_description_shape(x: SpecXmp, t: Seq<char>)
    requires
        x.description == Some(t),
    ensures
        spec_open_tag("dc:description"@) == "<dc:description>"@,
        spec_close_tag("dc:description"@) == "</dc:description>"@,
        spec_render(x) == spec_header() + spec_attrs(x) + ">\n"@ + spec_title_element(x) + "      "@
            + spec_open_tag("dc:description"@) + spec_alt(spec_encode_xml(t)) + spec_close_tag(
            "dc:description"@,
        ) + ("\n"@ + spec_subject_element(x) + spec_persons_element(x) + spec_footer()),
{
    lemma_alt_pieces();
    lemma_open_close_description();
    lemma_render_parts(x);
    let e = spec_encode_xml(t);
    let o = "<dc:description>"@;
    let c = "</dc:description>"@;
    let el = spec_description_element(x);
    assert(el == "      "@ + o + "<rdf:Alt><rdf:li xml:lang=\"x-default\">"@ + e + ("</rdf:li></rdf:Alt>"@ + c + "\n"@));
    assert(el =~= "      "@ + o + spec_alt(e) + c + "\n"@);
    let front = spec_header() + spec_attrs(x) + ">\n"@ + spec_title_element(x) + "      "@;
    let back = "\n"@ + spec_subject_element(x) + spec_persons_element(x) + spec_footer();
    assert(spec_render(x) =~= front + o + spec_alt(e) + c + back);
}

/// A description reads back.
proof fn lemma_description_present(x: SpecXmp, t: Seq<char>)
    requires
        spec_reads_back(x),
        x.description == Some(t),
    ensures
        spec_extract_alt(spec_render(x), "dc:description"@) == Some(t),
{
    lemma_reads_back_elements(x);
    lemma_description_shape(x, t);
    lemma_tag_needle("<dc:description>"@);
    lemma_tag_needle("</dc:description>"@);
    let e = spec_encode_xml(t);
    let pre = spec_header() + spec_attrs(x) + ">\n"@ + spec_title_element(x) + "      "@;
    let post = "\n"@ + spec_subject_element(x) + spec_persons_element(x) + spec_footer();
    lemma_clean_before_description(x, "<dc:description>"@ + spec_alt(e) + "</dc:description>"@ + post);
    lemma_alt_element_reads(spec_render(x), pre, "dc:description"@, t, post);
}

/// The description reads back.
proof fn lemma_description_reads(x: SpecXmp)
    requires
        spec_reads_back(x),
    ensures
        spec_extract_alt(spec_render(x), "dc:description"@) == x.description,
{
    match x.description {
        Some(t) => {
            lemma_description_present(x, t);
        },
        None => {
            lemma_tag_literals();
            lemma_needles_distinct();
            lemma_tag_absent(x, "<dc:description>"@);
            lemma_extract_simple_absent(spec_render(x), "dc:description"@);
        },
    }
}

// ------------------------------------------------------------ reading bags

/// The list items as decoding reads them: the texts themselves.
pub open spec fn spec_li_plain(items: Seq<Seq<char>>) -> Seq<char>
    decreases items.len(),
{
    if items.len() == 0 {
        Seq::empty()
    } else {
        spec_li_plain(items.drop_last()) + "        <rdf:li>"@ + items.last() + "</rdf:li>\n"@
    }
}

/// Decoding the rendered list items gives the items' own texts.
proof fn lemma_decode_li_lines(items: Seq<Seq<char>>)
    ensures
        spec_decode_xml(spec_li_lines(items)) == spec_li_plain(items),
    decreases items.len(),
{
    if items.len() == 0 {
        assert(spec_decode_xml(Seq::<char>::empty()) =~= Seq::<char>::empty());
    } else {
        let init = items.drop_last();
        let t = items.last();
        lemma_decode_li_lines(init);
        let l0 = spec_li_lines(init);
        let a = "        <rdf:li>"@;
        let b = "</rdf:li>\n"@;
        let e = spec_encode_xml(t);
        reveal_strlit("        <rdf:li>");
        reveal_strlit("</rdf:li>\n");
        assert(l0 + a + e + b =~= l0 + (a + (e + b)));
        lemma_decode_split(l0, a + (e + b));
        lemma_decode_front(a, e + b);
        lemma_decode_split(e, b);
        lemma_decode_absent(b);
        lemma_decode_encode(t);
        assert(spec_li_plain(init) + (a + (t + b)) =~= spec_li_plain(init) + a + t + b);
    }
}

/// The first item of the list, and the rest.
proof fn lemma_li_plain_front(items: Seq<Seq<char>>)
    requires
        items.len() > 0,
    ensures
        spec_li_plain(items) == "        <rdf:li>"@ + items[0] + "</rdf:li>\n"@ + spec_li_plain(
            items.drop_first(),
        ),
    decreases items.len(),
{
    let a = "        <rdf:li>"@;
    let b = "</rdf:li>\n"@;
    if items.len() == 1 {
        assert(items.drop_last() =~= Seq::<Seq<char>>::empty());
        assert(items.drop_first() =~= Seq::<Seq<char>>::empty());
        assert(spec_li_plain(items.drop_last()) =~= Seq::<char>::empty());
        assert(spec_li_plain(items.drop_first()) =~= Seq::<char>::empty());
        assert(items.last() == items[0]);
        assert(spec_li_plain(items) =~= a + items[0] + b + Seq::<char>::empty());
    } else {
        let init = items.drop_last();
        lemma_li_plain_front(init);
        assert(init.drop_first() =~= items.drop_first().drop_last());
        assert(items.drop_first().last() == items.last());
        assert(init[0] == items[0]);
        assert(spec_li_plain(items) =~= a + items[0] + b + spec_li_plain(items.drop_first()));
    }
}

/// The bounds of the first list item after a piece that starts no item.
proof fn lemma_li_bounds_first(pre: Seq<char>, t: Seq<char>, rest: Seq<char>)
    requires
        spec_no_start(pre, "        <rdf:li>"@ + t + "</rdf:li>\n"@ + rest, "<rdf:li"@),
        spec_element_text(t),
    ensures
        ({
            let x = pre + ("        <rdf:li>"@ + t + "</rdf:li>\n"@ + rest);
            let a = pre.len() + 16;
            &&& spec_li_bounds(x) == Some((a as int, a + t.len() as int, a + t.len() as int + 9))
            &&& x.subrange(a as int, a + t.len() as int) == t
            &&& x.subrange(a + t.len() as int + 9, x.len() as int) == "\n"@ + rest
        }),
{
    let li = "<rdf:li"@;
    reveal_strlit("<rdf:li");
    reveal_strlit(">");
    reveal_strlit("</rdf:li>");
    reveal_strlit("        <rdf:li>");
    reveal_strlit("</rdf:li>\n");
    reveal_strlit("\n");
    reveal_strlit("        ");
    reveal_strlit("<rdf:li>");
    let sp = "        "@;
    let open = "<rdf:li>"@;
    let close = "</rdf:li>"@;
    let item = "        <rdf:li>"@ + t + "</rdf:li>\n"@ + rest;
    let x = pre + item;
    let tail = open + (t + (close + ("\n"@ + rest)));
    assert(item =~= sp + tail);
    lemma_no_start_lacks(sp, tail, li);
    lemma_no_start_join(pre, sp, tail, li);
    assert(tail.subrange(0, 7) =~= li);
    assert(x =~= (pre + sp) + tail);
    lemma_find_first(pre + sp, tail, li);
    let start = pre.len() + 8;
    let after = x.subrange(start as int, x.len() as int);
    assert(after =~= li + (">"@ + (t + (close + ("\n"@ + rest)))));
    lemma_no_start_lacks(li, ">"@ + (t + (close + ("\n"@ + rest))), ">"@);
    assert((">"@ + (t + (close + ("\n"@ + rest)))).subrange(0, 1) =~= ">"@);
    lemma_find_first(li, ">"@ + (t + (close + ("\n"@ + rest))), ">"@);
    let t0 = start + 8;
    let after2 = x.subrange(t0 as int, x.len() as int);
    assert(after2 =~= t + (close + ("\n"@ + rest)));
    lemma_no_start_boundary(t, close + ("\n"@ + rest), close);
    assert((close + ("\n"@ + rest)).subrange(0, 9) =~= close);
    lemma_find_first(t, close + ("\n"@ + rest), close);
    assert(x.subrange(t0 as int, t0 + t.len() as int) =~= t);
    assert(x.subrange(t0 + t.len() as int + 9, x.len() as int) =~= "\n"@ + rest);
}

/// The list items read back, one by one, after a piece that starts no item.
proof fn lemma_li_items_read(pre: Seq<char>, items: Seq<Seq<char>>)
    requires
        spec_no_start(pre, spec_li_plain(items) + "      </rdf:Bag>"@, "<rdf:li"@),
        forall|i: int| 0 <= i < items.len() ==> spec_element_text(#[trigger] items[i]),
    ensures
        spec_li_items(pre + spec_li_plain(items) + "      </rdf:Bag>"@) == items,
    decreases items.len(),
{
    let q8 = "      </rdf:Bag>"@;
    let li = "<rdf:li"@;
    let x = pre + spec_li_plain(items) + q8;
    if items.len() == 0 {
        reveal_strlit("<rdf:li");
        reveal_strlit("      </rdf:Bag>");
        assert forall|j: int| 0 <= j < q8.len() implies !spec_occurs_at(#[trigger] (q8 + Seq::<char>::empty()), li, j) by {
            if spec_occurs_at(q8 + Seq::<char>::empty(), li, j) {
                assert((q8 + Seq::<char>::empty()).subrange(j, j + 7)[0] == li[0]);
                assert((q8 + Seq::<char>::empty()).subrange(j, j + 7)[1] == li[1]);
            }
        }
        assert(spec_li_plain(items) =~= Seq::<char>::empty());
        lemma_no_start_join(pre, q8, Seq::<char>::empty(), li);
        assert(x =~= pre + q8);
        assert(pre + q8 + Seq::<char>::empty() =~= pre + q8);
        lemma_find_absent(x, li);
        assert(spec_li_bounds(x) is None);
        assert(items =~= Seq::<Seq<char>>::empty());
    } else {
        let t = items[0];
        let tail = items.drop_first();
        lemma_li_plain_front(items);
        let rest = spec_li_plain(tail) + q8;
        assert(x =~= pre + ("        <rdf:li>"@ + t + "</rdf:li>\n"@ + rest));
        assert(spec_li_plain(items) + q8 =~= "        <rdf:li>"@ + t + "</rdf:li>\n"@ + rest);
        lemma_li_bounds_first(pre, t, rest);
        lemma_decode_plain(t);
        reveal_strlit("\n");
        reveal_strlit("<rdf:li");
        lemma_no_start_lacks("\n"@, spec_li_plain(tail) + q8, li);
        assert forall|i: int| 0 <= i < tail.len() implies spec_element_text(#[trigger] tail[i]) by {
            assert(tail[i] == items[i + 1]);
        }
        lemma_li_items_read("\n"@, tail);
        assert("\n"@ + rest =~= "\n"@ + spec_li_plain(tail) + q8);
        assert(seq![t] + tail =~= items);
    }
}

/// The bag around rendered list items.
pub open spec fn spec_bag(lines: Seq<char>) -> Seq<char> {
    "<rdf:Bag>\n"@ + lines + "      </rdf:Bag>"@
}

/// A bag element right after `pre` reads back its items.
proof fn lemma_bag_element_reads(r: Seq<char>, pre: Seq<char>, tag: Seq<char>, items: Seq<Seq<char>>, post: Seq<char>)
    requires
        forall|i: int| 0 <= i < items.len() ==> spec_element_text(#[trigger] items[i]),
        r == pre + spec_open_tag(tag) + spec_bag(spec_li_lines(items)) + spec_close_tag(tag) + post,
        spec_scan_needle(spec_close_tag(tag)),
        spec_no_start(pre, spec_open_tag(tag) + spec_bag(spec_li_lines(items)) + spec_close_tag(tag) + post, spec_open_tag(tag)),
    ensures
        spec_extract_bag(r, tag) == items,
{
    let q5 = "<rdf:Bag>\n"@;
    let q8 = "      </rdf:Bag>"@;
    let l = spec_li_lines(items);
    let c = spec_close_tag(tag);
    reveal_strlit("<rdf:Bag>\n");
    reveal_strlit("      </rdf:Bag>");
    reveal_strlit("<rdf:li");
    lemma_clean_bag_open(l + (q8 + (c + post)), c);
    lemma_clean_li_lines(items, q8 + (c + post), c);
    lemma_no_start_join(q5, l, q8 + (c + post), c);
    lemma_clean_bag_close(c + post, c);
    lemma_no_start_join(q5 + l, q8, c + post, c);
    lemma_extract_simple_at(r, pre, tag, spec_bag(l), post);
    lemma_trim_id(spec_bag(l));
    lemma_decode_li_lines(items);
    assert(q5 + l + q8 =~= q5 + (l + q8));
    lemma_decode_front(q5, l + q8);
    lemma_decode_split(l, q8);
    lemma_decode_absent(q8);
    let lp = spec_li_plain(items);
    assert(spec_decode_xml(spec_trim(spec_bag(l))) =~= q5 + lp + q8);
    let li = "<rdf:li"@;
    assert forall|j: int| 0 <= j < q5.len() implies !spec_occurs_at(#[trigger] (q5 + (lp + q8)), li, j) by {
        if spec_occurs_at(q5 + (lp + q8), li, j) {
            assert((q5 + (lp + q8)).subrange(j, j + 7)[0] == li[0]);
            assert((q5 + (lp + q8)).subrange(j, j + 7)[5] == li[5]);
        }
    }
    lemma_li_items_read(q5, items);
}

/// The subject and persons elements, spelled out.
proof fn lemma_bag_pieces()
    ensures
        "      <dc:subject><rdf:Bag>\n"@ == "      "@ + "<dc:subject>"@ + "<rdf:Bag>\n"@,
        "      </rdf:Bag></dc:subject>\n"@ == "      </rdf:Bag>"@ + "</dc:subject>"@ + "\n"@,
        "      <mediavault:PersonNames><rdf:Bag>\n"@ == "      "@ + "<mediavault:PersonNames>"@
            + "<rdf:Bag>\n"@,
        "      </rdf:Bag></mediavault:PersonNames>\n"@ == "      </rdf:Bag>"@
            + "</mediavault:PersonNames>"@ + "\n"@,
{
    reveal_strlit("      <dc:subject><rdf:Bag>\n");
    reveal_strlit("      </rdf:Bag></dc:subject>\n");
    reveal_strlit("      <mediavault:PersonNames><rdf:Bag>\n");
    reveal_strlit("      </rdf:Bag></mediavault:PersonNames>\n");
    reveal_strlit("      ");
    reveal_strlit("<dc:subject>");
    reveal_strlit("</dc:subject>");
    reveal_strlit("<mediavault:PersonNames>");
    reveal_strlit("</mediavault:PersonNames>");
    reveal_strlit("<rdf:Bag>\n");
    reveal_strlit("      </rdf:Bag>");
    reveal_strlit("\n");
    assert("      <dc:subject><rdf:Bag>\n"@ =~= "      "@ + "<dc:subject>"@ + "<rdf:Bag>\n"@);
    assert("      </rdf:Bag></dc:subject>\n"@ =~= "      </rdf:Bag>"@ + "</dc:subject>"@ + "\n"@);
    assert("      <mediavault:PersonNames><rdf:Bag>\n"@ =~= "      "@ + "<mediavault:PersonNames>"@
        + "<rdf:Bag>\n"@);
    assert("      </rdf:Bag></mediavault:PersonNames>\n"@ =~= "      </rdf:Bag>"@
        + "</mediavault:PersonNames>"@ + "\n"@);
}

/// The header, the attributes, the title and the description start no
/// subject tag.
proof fn lemma_clean_before_subject(x: SpecXmp, rest: Seq<char>)
    requires
        spec_reads_back(x),
    ensures
        spec_no_start(
            spec_header() + spec_attrs(x) + ">\n"@ + spec_title_element(x) + spec_description_element(x)
                + "      "@,
            rest,
            "<dc:subject>"@,
        ),
{
    let open = "<dc:subject>"@;
    let front = spec_header() + spec_attrs(x) + ">\n"@;
    let ti = spec_title_element(x);
    let de = spec_description_element(x);
    lemma_needles_distinct();
    lemma_tag_needle(open);
    lemma_clean_front_tag(x, ti + (de + ("      "@ + rest)), open);
    lemma_clean_title_element(x, de + ("      "@ + rest), open);
    lemma_no_start_join(front, ti, de + ("      "@ + rest), open);
    lemma_clean_description_element(x, "      "@ + rest, open);
    lemma_no_start_join(front + ti, de, "      "@ + rest, open);
    lemma_clean_indent(rest, open);
    lemma_no_start_join(front + ti + de, "      "@, rest, open);
}

/// The header, the attributes and the other elements start no persons
/// tag.
proof fn lemma_clean_before_persons(x: SpecXmp, rest: Seq<char>)
    requires
        spec_reads_back(x),
    ensures
        spec_no_start(
            spec_header() + spec_attrs(x) + ">\n"@ + spec_title_element(x) + spec_description_element(x)
                + spec_subject_element(x) + "      "@,
            rest,
            "<mediavault:PersonNames>"@,
        ),
{
    let open = "<mediavault:PersonNames>"@;
    let front = spec_header() + spec_attrs(x) + ">\n"@;
    let ti = spec_title_element(x);
    let de = spec_description_element(x);
    let su = spec_subject_element(x);
    lemma_needles_distinct();
    lemma_tag_needle(open);
    lemma_clean_front_tag(x, ti + (de + (su + ("      "@ + rest))), open);
    lemma_clean_title_element(x, de + (su + ("      "@ + rest)), open);
    lemma_no_start_join(front, ti, de + (su + ("      "@ + rest)), open);
    lemma_clean_description_element(x, su + ("      "@ + rest), open);
    lemma_no_start_join(front + ti, de, su + ("      "@ + rest), open);
    lemma_clean_subject_element(x, "      "@ + rest, open);
    lemma_no_start_join(front + ti + de, su, "      "@ + rest, open);
    lemma_clean_indent(rest, open);
    lemma_no_start_join(front + ti + de + su, "      "@, rest, open);
}

/// The packet around the subject element.
#[verifier::rlimit(40)]
proof fn lemma_tags_shape(x: SpecXmp)
    requires
        x.tags.len() > 0,
    ensures
        spec_render(x) == (spec_header() + spec_attrs(x) + ">\n"@ + spec_title_element(x)
            + spec_description_element(x) + "      "@) + "<dc:subject>"@ + spec_bag(spec_li_lines(x.tags))
            + "</dc:subject>"@ + ("\n"@ + spec_persons_element(x) + spec_footer()),
{
    lemma_bag_pieces();
    lemma_render_parts(x);
    let open = "<dc:subject>"@;
    let close = "</dc:subject>"@;
    let l = spec_li_lines(x.tags);
    let pre = spec_header() + spec_attrs(x) + ">\n"@ + spec_title_element(x)
        + spec_description_element(x) + "      "@;
    let post = "\n"@ + spec_persons_element(x) + spec_footer();
    assert(spec_subject_element(x) == "      "@ + open + "<rdf:Bag>\n"@ + l + "      </rdf:Bag>"@ + close + "\n"@);
    assert(spec_render(x) =~= pre + open + spec_bag(l) + close + post);
}

/// Tags read back.
#[verifier::rlimit(30)]
proof fn lemma_tags_present(x: SpecXmp)
    requires
        spec_reads_back(x),
        x.tags.len() > 0,
    ensures
        spec_extract_bag(spec_render(x), "dc:subject"@) == x.tags,
{
    lemma_reads_back_elements(x);
    lemma_tag_literals();
    let open = "<dc:subject>"@;
    let close = "</dc:subject>"@;
    lemma_tag_needle(close);
    let l = spec_li_lines(x.tags);
    let pre = spec_header() + spec_attrs(x) + ">\n"@ + spec_title_element(x)
        + spec_description_element(x) + "      "@;
    let post = "\n"@ + spec_persons_element(x) + spec_footer();
    lemma_tags_shape(x);
    lemma_clean_before_subject(x, open + spec_bag(l) + close + post);
    lemma_bag_element_reads(spec_render(x), pre, "dc:subject"@, x.tags, post);
}

/// The tags read back.
proof fn lemma_tags_read(x: SpecXmp)
    requires
        spec_reads_back(x),
    ensures
        spec_extract_bag(spec_render(x), "dc:subject"@) == x.tags,
{
    if x.tags.len() > 0 {
        lemma_tags_present(x);
    } else {
        lemma_tag_literals();
        lemma_needles_distinct();
        lemma_tag_absent(x, "<dc:subject>"@);
        lemma_extract_simple_absent(spec_render(x), "dc:subject"@);
        assert(x.tags =~= Seq::<Seq<char>>::empty());
    }
}

/// The packet, part by part.
proof fn lemma_render_parts(x: SpecXmp)
    ensures
        spec_render(x) == spec_header() + spec_attrs(x) + ">\n"@ + spec_title_element(x)
            + spec_description_element(x) + spec_subject_element(x) + spec_persons_element(x)
            + spec_footer(),
{
    assert(spec_render(x) =~= spec_header() + spec_attrs(x) + ">\n"@ + spec_title_element(x)
        + spec_description_element(x) + spec_subject_element(x) + spec_persons_element(x)
        + spec_footer());
}

/// The packet around the persons element.
#[verifier::rlimit(40)]
proof fn lemma_persons_shape(x: SpecXmp)
    requires
        x.persons.len() > 0,
    ensures
        spec_render(x) == (spec_header() + spec_attrs(x) + ">\n"@ + spec_title_element(x)
            + spec_description_element(x) + spec_subject_element(x) + "      "@) + "<mediavault:PersonNames>"@
            + spec_bag(spec_li_lines(x.persons)) + "</mediavault:PersonNames>"@ + ("\n"@ + spec_footer()),
{
    lemma_bag_pieces();
    lemma_render_parts(x);
    let open = "<mediavault:PersonNames>"@;
    let close = "</mediavault:PersonNames>"@;
    let l = spec_li_lines(x.persons);
    let pre = spec_header() + spec_attrs(x) + ">\n"@ + spec_title_element(x)
        + spec_description_element(x) + spec_subject_element(x) + "      "@;
    let post = "\n"@ + spec_footer();
    assert(spec_persons_element(x) == "      "@ + open + "<rdf:Bag>\n"@ + l + "      </rdf:Bag>"@ + close + "\n"@);
    assert(spec_render(x) =~= pre + open + spec_bag(l) + close + post);
}

/// Persons read back.
#[verifier::rlimit(30)]
proof fn lemma_persons_present(x: SpecXmp)
    requires
        spec_reads_back(x),
        x.persons.len() > 0,
    ensures
        spec_extract_bag(spec_render(x), "mediavault:PersonNames"@) == x.persons,
{
    lemma_reads_back_elements(x);
    lemma_tag_literals();
    let open = "<mediavault:PersonNames>"@;
    lemma_tag_needle("</mediavault:PersonNames>"@);
    let l = spec_li_lines(x.persons);
    let close = "</mediavault:PersonNames>"@;
    let pre = spec_header() + spec_attrs(x) + ">\n"@ + spec_title_element(x)
        + spec_description_element(x) + spec_subject_element(x) + "      "@;
    let post = "\n"@ + spec_footer();
    lemma_persons_shape(x);
    lemma_clean_before_persons(x, open + spec_bag(l) + close + post);
    lemma_bag_element_reads(spec_render(x), pre, "mediavault:PersonNames"@, x.persons, post);
}

/// The persons read back.
proof fn lemma_persons_read(x: SpecXmp)
    requires
        spec_reads_back(x),
    ensures
        spec_extract_bag(spec_render(x), "mediavault:PersonNames"@) == x.persons,
{
    if x.persons.len() > 0 {
        lemma_persons_present(x);
    } else {
        lemma_tag_literals();
        lemma_needles_distinct();
        lemma_tag_absent(x, "<mediavault:PersonNames>"@);
        lemma_extract_simple_absent(spec_render(x), "mediavault:PersonNames"@);
        assert(x.persons =~= Seq::<Seq<char>>::empty());
    }
}

// ------------------------------------------------------- reading attributes

/// Whether `n` is one of the attribute needles.
pub open spec fn spec_attr_needle(n: Seq<char>) -> bool {
    ||| n == "photoshop:Instructions=\""@
    ||| n == "xmp:CreateDate=\""@
    ||| n == "photoshop:DateCreated=\""@
    ||| n == "exif:GPSLatitude=\""@
    ||| n == "exif:GPSLongitude=\""@
    ||| n == "mediavault:AlbumName=\""@
}

/// An attribute needle that no line holds and no album or notes value
/// completes occurs nowhere in the packet.
proof fn lemma_attr_absent(x: SpecXmp, n: Seq<char>)
    requires
        spec_reads_back(x),
        spec_attr_needle(n),
        x.gps is Some ==> n != "exif:GPSLatitude=\""@ && n != "exif:GPSLongitude=\""@,
        x.album matches Some(a) ==> n != "mediavault:AlbumName=\""@ && !n.drop_last().is_suffix_of(a),
        x.notes matches Some(a) ==> n != "photoshop:Instructions=\""@ && !n.drop_last().is_suffix_of(a),
        x.date_created is Some ==> n != "xmp:CreateDate=\""@,
    ensures
        spec_no_start(spec_render(x), Seq::empty(), n),
{
    reveal(spec_reads_back);
    lemma_needles_distinct();
    lemma_attr_needles();
    lemma_clean_attrs(x, ">\n"@ + (spec_elements(x) + spec_footer()), n);
    lemma_clean_elements(x, spec_footer(), n);
    lemma_clean_packet(x, n);
}

/// An attribute line right after `pre` reads back its value.
proof fn lemma_attr_line_reads(r: Seq<char>, pre: Seq<char>, key: Seq<char>, v: Seq<char>, post: Seq<char>)
    requires
        r == pre + spec_attr_line(key, v) + post,
        spec_scan_needle(key + "=\""@),
        spec_no_start(pre, spec_attr_line(key, v) + post, key + "=\""@),
        spec_lacks(v, '"'),
    ensures
        spec_extract_attr(r, key) == Some(spec_decode_xml(v)),
{
    let nl = "\n        "@;
    let n = key + "=\""@;
    let rest = n + v + "\""@ + post;
    assert(spec_attr_line(key, v) + post =~= nl + rest);
    lemma_clean_line_start(rest, n);
    lemma_no_start_join(pre, nl, rest, n);
    assert(r =~= (pre + nl) + n + v + "\""@ + post);
    lemma_extract_attr_at(r, pre + nl, key, v, post);
}

/// Notes read back from their attribute.
proof fn lemma_notes_present(x: SpecXmp, v: Seq<char>)
    requires
        spec_reads_back(x),
        x.notes == Some(v),
    ensures
        spec_extract_attr(spec_render(x), "photoshop:Instructions"@) == Some(v),
{
    reveal(spec_reads_back);
    let key = "photoshop:Instructions"@;
    let n = "photoshop:Instructions=\""@;
    lemma_needles_distinct();
    lemma_attr_needles();
    let e = spec_encode_xml(v);
    let h = spec_header();
    let g = spec_gps_lines(x);
    let al = spec_album_line(x);
    let line = spec_attr_line(key, e);
    let post = spec_date_line(x) + ">\n"@ + spec_elements(x) + spec_footer();
    assert(spec_render(x) =~= h + g + al + line + post);
    lemma_clean_header(g + (al + (line + post)), n);
    lemma_clean_gps_lines(x, al + (line + post), n);
    lemma_no_start_join(h, g, al + (line + post), n);
    lemma_clean_album_line(x, line + post, n);
    lemma_no_start_join(h + g, al, line + post, n);
    lemma_encode_lacks(v);
    lemma_tag_literals();
    lemma_attr_line_reads(spec_render(x), h + g + al, key, e, post);
    lemma_decode_encode(v);
}

/// Without notes the packet holds neither their element nor their attribute.
proof fn lemma_notes_absent(x: SpecXmp)
    requires
        spec_reads_back(x),
        x.notes is None,
    ensures
        spec_extract_attr(spec_render(x), "photoshop:Instructions"@) is None,
{
    reveal(spec_reads_back);
    lemma_tag_literals();
    lemma_needles_distinct();
    lemma_attr_needles();
    lemma_attr_absent(x, "photoshop:Instructions=\""@);
    lemma_extract_attr_absent(spec_render(x), "photoshop:Instructions"@);
}

/// The notes read back.
proof fn lemma_notes_read(x: SpecXmp)
    requires
        spec_reads_back(x),
    ensures
        or_else(
            spec_extract_simple(spec_render(x), "photoshop:Instructions"@),
            spec_extract_attr(spec_render(x), "photoshop:Instructions"@),
        ) == x.notes,
{
    lemma_tag_literals();
    lemma_needles_distinct();
    lemma_tag_absent(x, "<photoshop:Instructions>"@);
    lemma_extract_simple_absent(spec_render(x), "photoshop:Instructions"@);
    match x.notes {
        Some(v) => {
            lemma_notes_present(x, v);
        },
        None => {
            lemma_notes_absent(x);
        },
    }
}

/// Album reads back from its attribute.
proof fn lemma_album_present(x: SpecXmp, v: Seq<char>)
    requires
        spec_reads_back(x),
        x.album == Some(v),
    ensures
        spec_extract_attr(spec_render(x), "mediavault:AlbumName"@) == Some(v),
{
    reveal(spec_reads_back);
    let key = "mediavault:AlbumName"@;
    let n = "mediavault:AlbumName=\""@;
    lemma_needles_distinct();
    lemma_attr_needles();
    let e = spec_encode_xml(v);
    let h = spec_header();
    let g = spec_gps_lines(x);
    let line = spec_attr_line(key, e);
    let post = spec_notes_line(x) + spec_date_line(x) + ">\n"@ + spec_elements(x)
        + spec_footer();
    assert(spec_render(x) =~= h + g + line + post);
    lemma_clean_header(g + (line + post), n);
    lemma_clean_gps_lines(x, line + post, n);
    lemma_no_start_join(h, g, line + post, n);
    lemma_encode_lacks(v);
    lemma_tag_literals();
    lemma_attr_line_reads(spec_render(x), h + g, key, e, post);
    lemma_decode_encode(v);
}

/// Without an album the packet holds neither its element nor its attribute.
proof fn lemma_album_absent(x: SpecXmp)
    requires
        spec_reads_back(x),
        x.album is None,
    ensures
        spec_extract_attr(spec_render(x), "mediavault:AlbumName"@) is None,
{
    reveal(spec_reads_back);
    lemma_tag_literals();
    lemma_needles_distinct();
    lemma_attr_needles();
    lemma_attr_absent(x, "mediavault:AlbumName=\""@);
    lemma_extract_attr_absent(spec_render(x), "mediavault:AlbumName"@);
}

/// The album reads back.
proof fn lemma_album_read(x: SpecXmp)
    requires
        spec_reads_back(x),
    ensures
        or_else(
            spec_extract_simple(spec_render(x), "mediavault:AlbumName"@),
            spec_extract_attr(spec_render(x), "mediavault:AlbumName"@),
        ) == x.album,
{
    lemma_tag_literals();
    lemma_needles_distinct();
    lemma_tag_absent(x, "<mediavault:AlbumName>"@);
    lemma_extract_simple_absent(spec_render(x), "mediavault:AlbumName"@);
    match x.album {
        Some(v) => {
            lemma_album_present(x, v);
        },
        None => {
            lemma_album_absent(x);
        },
    }
}

/// A date reads back from its attribute.
proof fn lemma_date_present(x: SpecXmp, d: Seq<char>)
    requires
        spec_reads_back(x),
        x.date_created == Some(d),
    ensures
        spec_extract_attr(spec_render(x), "xmp:CreateDate"@) == Some(d),
{
    reveal(spec_reads_back);
    let key = "xmp:CreateDate"@;
    let n = "xmp:CreateDate=\""@;
    lemma_needles_distinct();
    lemma_attr_needles();
    let h = spec_header();
    let g = spec_gps_lines(x);
    let al = spec_album_line(x);
    let no = spec_notes_line(x);
    let line = spec_attr_line(key, d);
    let post = ">\n"@ + spec_elements(x) + spec_footer();
    assert(spec_render(x) =~= h + g + al + no + line + post);
    lemma_clean_header(g + (al + (no + (line + post))), n);
    lemma_clean_gps_lines(x, al + (no + (line + post)), n);
    lemma_no_start_join(h, g, al + (no + (line + post)), n);
    lemma_clean_album_line(x, no + (line + post), n);
    lemma_no_start_join(h + g, al, no + (line + post), n);
    lemma_clean_notes_line(x, line + post, n);
    lemma_no_start_join(h + g + al, no, line + post, n);
    lemma_plain_lacks(d);
    lemma_tag_literals();
    lemma_attr_line_reads(spec_render(x), h + g + al + no, key, d, post);
    lemma_decode_absent(d);
}

/// Without a date the packet holds none of the date's names.
proof fn lemma_date_absent(x: SpecXmp)
    requires
        spec_reads_back(x),
        x.date_created is None,
    ensures
        spec_extract_attr(spec_render(x), "xmp:CreateDate"@) is None,
        spec_extract_simple(spec_render(x), "photoshop:DateCreated"@) is None,
        spec_extract_attr(spec_render(x), "photoshop:DateCreated"@) is None,
{
    reveal(spec_reads_back);
    lemma_tag_literals();
    lemma_needles_distinct();
    lemma_attr_needles();
    lemma_attr_absent(x, "xmp:CreateDate=\""@);
    lemma_extract_attr_absent(spec_render(x), "xmp:CreateDate"@);
    lemma_tag_absent(x, "<photoshop:DateCreated>"@);
    lemma_extract_simple_absent(spec_render(x), "photoshop:DateCreated"@);
    lemma_attr_absent(x, "photoshop:DateCreated=\""@);
    lemma_extract_attr_absent(spec_render(x), "photoshop:DateCreated"@);
}

/// No date element is ever written.
proof fn lemma_no_date_element(x: SpecXmp)
    requires
        spec_reads_back(x),
    ensures
        spec_extract_simple(spec_render(x), "xmp:CreateDate"@) is None,
{
    lemma_tag_literals();
    lemma_needles_distinct();
    lemma_tag_absent(x, "<xmp:CreateDate>"@);
    lemma_extract_simple_absent(spec_render(x), "xmp:CreateDate"@);
}

/// The date reads back.
proof fn lemma_date_read(x: SpecXmp)
    requires
        spec_reads_back(x),
    ensures
        or_else(
            or_else(
                or_else(
                    spec_extract_simple(spec_render(x), "xmp:CreateDate"@),
                    spec_extract_attr(spec_render(x), "xmp:CreateDate"@),
                ),
                spec_extract_simple(spec_render(x), "photoshop:DateCreated"@),
            ),
            spec_extract_attr(spec_render(x), "photoshop:DateCreated"@),
        ) == x.date_created,
{
    lemma_no_date_element(x);
    match x.date_created {
        Some(d) => {
            lemma_date_present(x, d);
        },
        None => {
            lemma_date_absent(x);
        },
    }
}

/// What the parser reads as the latitude and the longitude.
pub open spec fn spec_read_coordinate(r: Seq<char>, key: Seq<char>) -> Option<Seq<char>> {
    or_else(spec_extract_attr(r, key), spec_extract_simple(r, key))
}

/// The packet around the coordinate lines.
#[verifier::rlimit(40)]
proof fn lemma_gps_shape(x: SpecXmp, la: Seq<char>, lo: Seq<char>)
    requires
        x.gps == Some((la, lo)),
    ensures
        spec_render(x) == spec_header() + spec_attr_line("exif:GPSLatitude"@, la) + (spec_attr_line(
            "exif:GPSLongitude"@,
            lo,
        ) + spec_gps_post(x)),
        spec_render(x) == spec_header() + spec_attr_line("exif:GPSLatitude"@, la) + spec_attr_line(
            "exif:GPSLongitude"@,
            lo,
        ) + spec_gps_post(x),
{
    let h = spec_header();
    let lat = spec_attr_line("exif:GPSLatitude"@, la);
    let lon = spec_attr_line("exif:GPSLongitude"@, lo);
    let post = spec_gps_post(x);
    assert(spec_render(x) =~= h + lat + (lon + post));
    assert(spec_render(x) =~= h + lat + lon + post);
}

/// What follows the coordinate lines in the packet.
pub open spec fn spec_gps_post(x: SpecXmp) -> Seq<char> {
    spec_album_line(x) + spec_notes_line(x) + spec_date_line(x) + ">\n"@ + spec_elements(x) + spec_footer()
}

/// The latitude reads back.
proof fn lemma_gps_lat(x: SpecXmp, la: Seq<char>, lo: Seq<char>)
    requires
        spec_reads_back(x),
        x.gps == Some((la, lo)),
    ensures
        spec_read_coordinate(spec_render(x), "exif:GPSLatitude"@) == Some(la),
{
    reveal(spec_reads_back);
    let klat = "exif:GPSLatitude"@;
    let nlat = "exif:GPSLatitude=\""@;
    lemma_tag_literals();
    lemma_needles_distinct();
    lemma_attr_needles();
    lemma_key_pieces();
    let h = spec_header();
    let lat = spec_attr_line(klat, la);
    let lon = spec_attr_line("exif:GPSLongitude"@, lo);
    let post = spec_gps_post(x);
    lemma_gps_shape(x, la, lo);
    lemma_plain_lacks(la);
    lemma_clean_header(lat + (lon + post), nlat);
    lemma_attr_line_reads(spec_render(x), h, klat, la, lon + post);
    lemma_decode_absent(la);
}

/// The longitude reads back.
proof fn lemma_gps_lon(x: SpecXmp, la: Seq<char>, lo: Seq<char>)
    requires
        spec_reads_back(x),
        x.gps == Some((la, lo)),
    ensures
        spec_read_coordinate(spec_render(x), "exif:GPSLongitude"@) == Some(lo),
{
    reveal(spec_reads_back);
    let klat = "exif:GPSLatitude"@;
    let klon = "exif:GPSLongitude"@;
    let nlon = "exif:GPSLongitude=\""@;
    lemma_tag_literals();
    lemma_needles_distinct();
    lemma_attr_needles();
    lemma_key_pieces();
    let h = spec_header();
    let lat = spec_attr_line(klat, la);
    let lon = spec_attr_line(klon, lo);
    let post = spec_gps_post(x);
    lemma_gps_shape(x, la, lo);
    lemma_plain_lacks(la);
    lemma_plain_lacks(lo);
    lemma_clean_header(lat + (lon + post), nlon);
    lemma_plain_no_key(la, nlon);
    lemma_clean_key_lat(la + ("\""@ + (lon + post)), nlon);
    lemma_clean_attr_value(la, lon + post, nlon);
    lemma_clean_attr_line(klat, la, lon + post, nlon);
    lemma_no_start_join(h, lat, lon + post, nlon);
    lemma_attr_line_reads(spec_render(x), h + lat, klon, lo, post);
    lemma_decode_absent(lo);
}

/// The coordinates read back.
proof fn lemma_gps_present(x: SpecXmp, la: Seq<char>, lo: Seq<char>)
    requires
        spec_reads_back(x),
        x.gps == Some((la, lo)),
    ensures
        spec_read_coordinate(spec_render(x), "exif:GPSLatitude"@) == Some(la),
        spec_read_coordinate(spec_render(x), "exif:GPSLongitude"@) == Some(lo),
{
    lemma_gps_lat(x, la, lo);
    lemma_gps_lon(x, la, lo);
}

/// The coordinates read back.
proof fn lemma_gps_read(x: SpecXmp)
    requires
        spec_reads_back(x),
    ensures
        match (
            spec_read_coordinate(spec_render(x), "exif:GPSLatitude"@),
            spec_read_coordinate(spec_render(x), "exif:GPSLongitude"@),
        ) {
            (Some(a), Some(b)) => Some((a, b)),
            _ => None,
        } == x.gps,
{
    reveal(spec_reads_back);
    match x.gps {
        Some((la, lo)) => {
            lemma_gps_present(x, la, lo);
        },
        None => {
            lemma_tag_literals();
            lemma_needles_distinct();
            lemma_attr_needles();
            if !spec_some_ends_with_key(x, "exif:GPSLatitude"@) {
                lemma_attr_absent(x, "exif:GPSLatitude=\""@);
                lemma_extract_attr_absent(spec_render(x), "exif:GPSLatitude"@);
                lemma_tag_absent(x, "<exif:GPSLatitude>"@);
                lemma_extract_simple_absent(spec_render(x), "exif:GPSLatitude"@);
            } else {
                lemma_attr_absent(x, "exif:GPSLongitude=\""@);
                lemma_extract_attr_absent(spec_render(x), "exif:GPSLongitude"@);
                lemma_tag_absent(x, "<exif:GPSLongitude>"@);
                lemma_extract_simple_absent(spec_render(x), "exif:GPSLongitude"@);
            }
        },
    }
}

// -------------------------------------------------------------- the domain

/// Whether the fields of `x` read back as rendering wrote them: element
/// texts (title, description, tags, persons) hold no entity reference, no
/// `</rdf:li>` and no white space at either end; the date and
/// the coordinates are plain text, as RFC 3339 dates and `deg,min.decN`
/// coordinates are; and an album or notes value does not end with `key=`
/// for a `key` that the parser looks up after reaching it.
#[verifier::opaque]
pub open spec fn spec_reads_back(x: SpecXmp) -> bool {
    &&& (x.title matches Some(t) ==> spec_element_text(t))
    &&& (x.description matches Some(t) ==> spec_element_text(t))
    &&& (forall|i: int| 0 <= i < x.tags.len() ==> spec_element_text(#[trigger] x.tags[i]))
    &&& (forall|i: int| 0 <= i < x.persons.len() ==> spec_element_text(#[trigger] x.persons[i]))
    &&& (x.date_created matches Some(d) ==> spec_plain_text(d))
    &&& (x.gps matches Some((la, lo)) ==> spec_plain_text(la) && spec_plain_text(lo))
    &&& (x.album matches Some(a) ==> {
        &&& !spec_ends_with_key(a, "photoshop:Instructions"@)
        &&& !spec_ends_with_key(a, "xmp:CreateDate"@)
        &&& (x.date_created is None ==> !spec_ends_with_key(a, "photoshop:DateCreated"@))
    })
    &&& (x.notes matches Some(v) ==> {
        &&& !spec_ends_with_key(v, "xmp:CreateDate"@)
        &&& (x.date_created is None ==> !spec_ends_with_key(v, "photoshop:DateCreated"@))
        &&& (x.album is None ==> !spec_ends_with_key(v, "mediavault:AlbumName"@))
    })
    &&& (x.gps is None ==> !(spec_some_ends_with_key(x, "exif:GPSLatitude"@)
        && spec_some_ends_with_key(x, "exif:GPSLongitude"@)))
}

/// Whether the album or the notes end with `key=`.
pub open spec fn spec_some_ends_with_key(x: SpecXmp, key: Seq<char>) -> bool {
    ||| (x.album matches Some(a) && spec_ends_with_key(a, key))
    ||| (x.notes matches Some(v) && spec_ends_with_key(v, key))
}

// ------------------------------------------------------------------- the law

/// Law: parsing the packet that rendering wrote gives the fields back.
/// Rendering escapes the texts and parsing decodes them again; this holds
/// for every set of fields whose texts the scanner can tell apart from the
/// packet's markup, as [`spec_reads_back`] states.
pub proof fn lemma_parse_render(x: SpecXmp)
    requires
        spec_reads_back(x),
    ensures
        spec_parse(spec_render(x)) == x,
{
    lemma_title_reads(x);
    lemma_description_reads(x);
    lemma_tags_read(x);
    lemma_persons_read(x);
    lemma_notes_read(x);
    lemma_album_read(x);
    lemma_date_read(x);
    lemma_gps_read(x);
    let p = spec_parse(spec_render(x));
    assert(p.title == x.title);
    assert(p.description == x.description);
    assert(p.tags == x.tags);
    assert(p.persons == x.persons);
    assert(p.notes == x.notes);
    assert(p.album == x.album);
    assert(p.date_created == x.date_created);
    assert(p.gps == x.gps);
}

} // verus!
