//! Law of the XML escaping of sidecars: decoding what encoding wrote gives
//! the text back, for every text.

use crate::ingest::sidecar::{spec_decode_xml, spec_encode_xml};
use crate::text::spec_replace;
use vstd::prelude::*;

verus! {

// ------------------------------------------------------------ replace facts

/// Replacing in `w + x` leaves `w` alone when `pat` starts nowhere in `w`.
proof fn lemma_replace_skip(w: Seq<char>, x: Seq<char>, pat: Seq<char>, rep: Seq<char>)
    requires
        pat.len() > 0,
        forall|i: int| 0 <= i < w.len() ==> !pat.is_prefix_of(#[trigger] (w + x).subrange(i, (w + x).len() as int)),
    ensures
        spec_replace(w + x, pat, rep) == w + spec_replace(x, pat, rep),
    decreases w.len(),
{
    if w.len() == 0 {
        assert(w + x =~= x);
    } else {
        let s = w + x;
        assert(s.subrange(0, s.len() as int) =~= s);
        assert(!pat.is_prefix_of(s));
        let w2 = w.drop_first();
        assert(s.drop_first() =~= w2 + x);
        assert forall|i: int| 0 <= i < w2.len() implies !pat.is_prefix_of(#[trigger] (w2 + x).subrange(i, (w2 + x).len() as int)) by {
            assert((w2 + x).subrange(i, (w2 + x).len() as int) =~= s.subrange(i + 1, s.len() as int));
        }
        lemma_replace_skip(w2, x, pat, rep);
        assert(seq![s[0]] + (w2 + spec_replace(x, pat, rep)) =~= w + spec_replace(x, pat, rep));
    }
}

/// Replacing in `pat + x` turns the leading `pat` into `rep`.
proof fn lemma_replace_hit(x: Seq<char>, pat: Seq<char>, rep: Seq<char>)
    requires
        pat.len() > 0,
    ensures
        spec_replace(pat + x, pat, rep) == rep + spec_replace(x, pat, rep),
{
    let s = pat + x;
    assert(pat.is_prefix_of(s));
    assert(s.subrange(pat.len() as int, s.len() as int) =~= x);
}

/// Replacing a one-character pattern distributes over concatenation.
proof fn lemma_replace_char_concat(a: Seq<char>, b: Seq<char>, pat: Seq<char>, rep: Seq<char>)
    requires
        pat.len() == 1,
    ensures
        spec_replace(a + b, pat, rep) == spec_replace(a, pat, rep) + spec_replace(b, pat, rep),
    decreases a.len(),
{
    if a.len() == 0 {
        assert(a + b =~= b);
        assert(spec_replace(a, pat, rep) =~= Seq::<char>::empty());
    } else {
        let s = a + b;
        assert(s[0] == a[0]);
        assert(pat.is_prefix_of(s) <==> pat.is_prefix_of(a)) by {
            if pat.is_prefix_of(s) {
                assert(pat[0] == s[0]);
            }
            if pat.is_prefix_of(a) {
                assert(pat[0] == a[0]);
            }
        }
        if pat.is_prefix_of(a) {
            assert(s.subrange(1, s.len() as int) =~= a.subrange(1, a.len() as int) + b);
            lemma_replace_char_concat(a.subrange(1, a.len() as int), b, pat, rep);
        } else {
            assert(s.drop_first() =~= a.drop_first() + b);
            lemma_replace_char_concat(a.drop_first(), b, pat, rep);
        }
    }
}

/// A one-character pattern absent from `s` leaves it unchanged.
proof fn lemma_replace_char_absent(s: Seq<char>, pat: Seq<char>, rep: Seq<char>)
    requires
        pat.len() == 1,
        forall|i: int| 0 <= i < s.len() ==> s[i] != pat[0],
    ensures
        spec_replace(s, pat, rep) == s,
    decreases s.len(),
{
    if s.len() > 0 {
        if pat.is_prefix_of(s) {
            assert(s.subrange(0, 1)[0] == pat[0]);
        }
        lemma_replace_char_absent(s.drop_first(), pat, rep);
        assert(seq![s[0]] + s.drop_first() =~= s);
    }
}

// ------------------------------------------------------------- the tokens

/// Which of the five escaped characters `c` is, in the order decoding
/// undoes them (`<`, `>`, `"`, `'`, `&`); 0 for every other character.
pub open spec fn spec_kind(c: char) -> int {
    if c == '<' {
        1
    } else if c == '>' {
        2
    } else if c == '"' {
        3
    } else if c == '\'' {
        4
    } else if c == '&' {
        5
    } else {
        0
    }
}

/// The entity reference that decoding step `k` replaces.
pub open spec fn spec_entity(k: int) -> Seq<char> {
    if k == 1 {
        "&lt;"@
    } else if k == 2 {
        "&gt;"@
    } else if k == 3 {
        "&quot;"@
    } else if k == 4 {
        "&apos;"@
    } else {
        "&amp;"@
    }
}

/// The character that decoding step `k` writes for its entity.
pub open spec fn spec_entity_char(k: int) -> Seq<char> {
    if k == 1 {
        "<"@
    } else if k == 2 {
        ">"@
    } else if k == 3 {
        "\""@
    } else if k == 4 {
        "'"@
    } else {
        "&"@
    }
}

/// How `c` reads after encoding and the first `k` decoding steps: itself
/// once its kind is decoded (or if it is never escaped), else its entity.
pub open spec fn spec_token(k: int, c: char) -> Seq<char> {
    if spec_kind(c) == 0 || spec_kind(c) <= k {
        seq![c]
    } else {
        spec_entity(spec_kind(c))
    }
}

/// `s` with each character read as its token after `k` decoding steps.
pub open spec fn spec_tokens(k: int, s: Seq<char>) -> Seq<char>
    decreases s.len(),
{
    if s.len() == 0 {
        seq![]
    } else {
        spec_token(k, s[0]) + spec_tokens(k, s.drop_first())
    }
}

/// Whether `t` starts with none of the entity references `&lt;`, `&gt;`,
/// `&quot;`, `&apos;` and `&amp;`.
pub open spec fn spec_no_entity_at(t: Seq<char>) -> bool {
    &&& !"&amp;"@.is_prefix_of(t)
    &&& !"&lt;"@.is_prefix_of(t)
    &&& !"&gt;"@.is_prefix_of(t)
    &&& !"&quot;"@.is_prefix_of(t)
    &&& !"&apos;"@.is_prefix_of(t)
}

/// Whether `s` holds none of the entity references `&lt;`, `&gt;`,
/// `&quot;`, `&apos;` and `&amp;` anywhere.
pub open spec fn spec_no_entity_text(s: Seq<char>) -> bool {
    forall|i: int| 0 <= i < s.len() ==> spec_no_entity_at(#[trigger] s.subrange(i, s.len() as int))
}

pub(crate) proof fn lemma_literals()
    ensures
        "&amp;"@ == seq!['&', 'a', 'm', 'p', ';'],
        "&lt;"@ == seq!['&', 'l', 't', ';'],
        "&gt;"@ == seq!['&', 'g', 't', ';'],
        "&quot;"@ == seq!['&', 'q', 'u', 'o', 't', ';'],
        "&apos;"@ == seq!['&', 'a', 'p', 'o', 's', ';'],
        "&"@ == seq!['&'],
        "<"@ == seq!['<'],
        ">"@ == seq!['>'],
        "\""@ == seq!['"'],
        "'"@ == seq!['\''],
{
    reveal_strlit("&amp;");
    reveal_strlit("&lt;");
    reveal_strlit("&gt;");
    reveal_strlit("&quot;");
    reveal_strlit("&apos;");
    reveal_strlit("&");
    reveal_strlit("<");
    reveal_strlit(">");
    reveal_strlit("\"");
    reveal_strlit("'");
    assert("&amp;"@ =~= seq!['&', 'a', 'm', 'p', ';']);
    assert("&lt;"@ =~= seq!['&', 'l', 't', ';']);
    assert("&gt;"@ =~= seq!['&', 'g', 't', ';']);
    assert("&quot;"@ =~= seq!['&', 'q', 'u', 'o', 't', ';']);
    assert("&apos;"@ =~= seq!['&', 'a', 'p', 'o', 's', ';']);
    assert("&"@ =~= seq!['&']);
    assert("<"@ =~= seq!['<']);
    assert(">"@ =~= seq!['>']);
    assert("\""@ =~= seq!['"']);
    assert("'"@ =~= seq!['\'']);
}

/// One decoding step turns the tokens after `k - 1` steps into the tokens
/// after `k` steps.
proof fn lemma_decode_step(k: int, s: Seq<char>)
    requires
        1 <= k <= 5,
    ensures
        spec_replace(spec_tokens(k - 1, s), spec_entity(k), spec_entity_char(k)) == spec_tokens(k, s),
    decreases s.len(),
{
    lemma_literals();
    let p = spec_entity(k);
    let r = spec_entity_char(k);
    if s.len() == 0 {
        assert(spec_tokens(k - 1, s) =~= Seq::<char>::empty());
    } else {
        let c = s[0];
        let t = s.drop_first();
        lemma_decode_step(k, t);
        let x = spec_tokens(k - 1, t);
        let w = spec_token(k - 1, c);
        assert(spec_tokens(k - 1, s) == w + x);
        assert(spec_tokens(k, s) == spec_token(k, c) + spec_tokens(k, t));
        if spec_kind(c) == k {
            assert(w == p);
            lemma_replace_hit(x, p, r);
            assert(r == seq![c]);
        } else {
            assert(spec_token(k, c) == w);
            assert forall|i: int| 0 <= i < w.len() implies !p.is_prefix_of(#[trigger] (w + x).subrange(i, (w + x).len() as int)) by {
                let y = (w + x).subrange(i, (w + x).len() as int);
                assert(y[0] == w[i]);
                if p.is_prefix_of(y) {
                    assert(p[0] == y[0]);
                    if i > 0 {
                        assert(w[i] != '&');
                    } else if spec_kind(c) == 0 {
                        assert(w[0] == c);
                    } else if spec_kind(c) <= k - 1 {
                        // A decoded `<`, `>`, `"` or `'`: no entity starts there.
                        assert(w[0] == c);
                    } else {
                        // Two different entities: they differ early.
                        assert(p[1] == y[1]);
                        assert(y[1] == w[1]);
                        if k == 4 && spec_kind(c) == 5 {
                            assert(p[2] == y[2]);
                            assert(y[2] == w[2]);
                        }
                    }
                }
            }
            lemma_replace_skip(w, x, p, r);
        }
    }
}

/// After all five decoding steps every character reads as itself.
proof fn lemma_tokens_all_decoded(s: Seq<char>)
    ensures
        spec_tokens(5, s) == s,
    decreases s.len(),
{
    if s.len() > 0 {
        lemma_tokens_all_decoded(s.drop_first());
        assert(seq![s[0]] + s.drop_first() =~= s);
    }
}

/// Encoding one character writes its entity (or the character itself).
proof fn lemma_encode_char(c: char)
    ensures
        spec_encode_xml(seq![c]) == spec_token(0, c),
{
    lemma_literals();
    let s1 = spec_replace(seq![c], "&"@, "&amp;"@);
    let s2 = spec_replace(s1, "<"@, "&lt;"@);
    let s3 = spec_replace(s2, ">"@, "&gt;"@);
    let s4 = spec_replace(s3, "\""@, "&quot;"@);
    let s5 = spec_replace(s4, "'"@, "&apos;"@);
    assert(spec_encode_xml(seq![c]) == s5);
    let one = seq![c];
    assert(one.drop_first() =~= Seq::<char>::empty());
    assert(one.subrange(1, 1) =~= Seq::<char>::empty());
    assert(spec_replace(Seq::<char>::empty(), "&"@, "&amp;"@) == Seq::<char>::empty());
    assert(spec_replace(Seq::<char>::empty(), "<"@, "&lt;"@) == Seq::<char>::empty());
    assert(spec_replace(Seq::<char>::empty(), ">"@, "&gt;"@) == Seq::<char>::empty());
    assert(spec_replace(Seq::<char>::empty(), "\""@, "&quot;"@) == Seq::<char>::empty());
    assert(spec_replace(Seq::<char>::empty(), "'"@, "&apos;"@) == Seq::<char>::empty());
    if c == '&' {
        assert("&"@.is_prefix_of(one));
        assert(s1 =~= "&amp;"@);
        lemma_replace_char_absent(s1, "<"@, "&lt;"@);
        lemma_replace_char_absent(s2, ">"@, "&gt;"@);
        lemma_replace_char_absent(s3, "\""@, "&quot;"@);
        lemma_replace_char_absent(s4, "'"@, "&apos;"@);
    } else {
        if "&"@.is_prefix_of(one) {
            assert(one.subrange(0, 1)[0] == '&');
        }
        assert(s1 =~= one);
        if c == '<' {
            assert("<"@.is_prefix_of(s1));
            assert(s1.subrange(1, 1) =~= Seq::<char>::empty());
            assert(s2 =~= "&lt;"@);
            lemma_replace_char_absent(s2, ">"@, "&gt;"@);
            lemma_replace_char_absent(s3, "\""@, "&quot;"@);
            lemma_replace_char_absent(s4, "'"@, "&apos;"@);
        } else {
            lemma_replace_char_absent(s1, "<"@, "&lt;"@);
            if c == '>' {
                assert(">"@.is_prefix_of(s2));
                assert(s2.subrange(1, 1) =~= Seq::<char>::empty());
                assert(s3 =~= "&gt;"@);
                lemma_replace_char_absent(s3, "\""@, "&quot;"@);
                lemma_replace_char_absent(s4, "'"@, "&apos;"@);
            } else {
                lemma_replace_char_absent(s2, ">"@, "&gt;"@);
                if c == '"' {
                    assert("\""@.is_prefix_of(s3));
                    assert(s3.subrange(1, 1) =~= Seq::<char>::empty());
                    assert(s4 =~= "&quot;"@);
                    lemma_replace_char_absent(s4, "'"@, "&apos;"@);
                } else {
                    lemma_replace_char_absent(s3, "\""@, "&quot;"@);
                    if c == '\'' {
                        assert("'"@.is_prefix_of(s4));
                        assert(s4.subrange(1, 1) =~= Seq::<char>::empty());
                        assert(s5 =~= "&apos;"@);
                    } else {
                        lemma_replace_char_absent(s4, "'"@, "&apos;"@);
                    }
                }
            }
        }
    }
}

/// Encoding writes every character as its entity (or itself), in order.
pub(crate) proof fn lemma_encode_tokens(s: Seq<char>)
    ensures
        spec_encode_xml(s) == spec_tokens(0, s),
    decreases s.len(),
{
    lemma_literals();
    if s.len() == 0 {
        assert(spec_replace(s, "&"@, "&amp;"@) =~= s);
    } else {
        let a = seq![s[0]];
        let b = s.drop_first();
        assert(s =~= a + b);
        lemma_encode_tokens(b);
        lemma_encode_char(s[0]);
        let a1 = spec_replace(a, "&"@, "&amp;"@);
        let b1 = spec_replace(b, "&"@, "&amp;"@);
        lemma_replace_char_concat(a, b, "&"@, "&amp;"@);
        let a2 = spec_replace(a1, "<"@, "&lt;"@);
        let b2 = spec_replace(b1, "<"@, "&lt;"@);
        lemma_replace_char_concat(a1, b1, "<"@, "&lt;"@);
        let a3 = spec_replace(a2, ">"@, "&gt;"@);
        let b3 = spec_replace(b2, ">"@, "&gt;"@);
        lemma_replace_char_concat(a2, b2, ">"@, "&gt;"@);
        let a4 = spec_replace(a3, "\""@, "&quot;"@);
        let b4 = spec_replace(b3, "\""@, "&quot;"@);
        lemma_replace_char_concat(a3, b3, "\""@, "&quot;"@);
        lemma_replace_char_concat(a4, b4, "'"@, "&apos;"@);
    }
}

/// Law: decoding undoes encoding. For every text, decoding the XML escape
/// of the text gives the text back.
pub proof fn lemma_decode_encode(s: Seq<char>)
    ensures
        spec_decode_xml(spec_encode_xml(s)) == s,
{
    lemma_literals();
    lemma_encode_tokens(s);
    lemma_decode_step(1, s);
    lemma_decode_step(2, s);
    lemma_decode_step(3, s);
    lemma_decode_step(4, s);
    lemma_decode_step(5, s);
    lemma_tokens_all_decoded(s);
}

proof fn lemma_tokens_concat(k: int, a: Seq<char>, b: Seq<char>)
    ensures
        spec_tokens(k, a + b) == spec_tokens(k, a) + spec_tokens(k, b),
    decreases a.len(),
{
    if a.len() == 0 {
        assert(a + b =~= b);
        assert(spec_tokens(k, a) + spec_tokens(k, b) =~= spec_tokens(k, b));
    } else {
        assert((a + b).drop_first() =~= a.drop_first() + b);
        assert((a + b)[0] == a[0]);
        lemma_tokens_concat(k, a.drop_first(), b);
        assert(spec_token(k, a[0]) + (spec_tokens(k, a.drop_first()) + spec_tokens(k, b)) =~= (spec_token(k, a[0])
            + spec_tokens(k, a.drop_first())) + spec_tokens(k, b));
    }
}

/// Law: XML escaping works character by character. Escaping a text is
/// escaping its parts one after the other; `&` becomes `&amp;`, `<` `&lt;`,
/// `>` `&gt;`, `"` `&quot;`, `'` `&apos;`, and every other character stays.
pub proof fn lemma_encode_rule(a: Seq<char>, b: Seq<char>, c: char)
    ensures
        spec_encode_xml(a + b) == spec_encode_xml(a) + spec_encode_xml(b),
        spec_encode_xml(seq![c]) == if c == '&' {
            seq!['&', 'a', 'm', 'p', ';']
        } else if c == '<' {
            seq!['&', 'l', 't', ';']
        } else if c == '>' {
            seq!['&', 'g', 't', ';']
        } else if c == '"' {
            seq!['&', 'q', 'u', 'o', 't', ';']
        } else if c == '\'' {
            seq!['&', 'a', 'p', 'o', 's', ';']
        } else {
            seq![c]
        },
{
    lemma_literals();
    lemma_encode_tokens(a + b);
    lemma_encode_tokens(a);
    lemma_encode_tokens(b);
    lemma_tokens_concat(0, a, b);
    lemma_encode_char(c);
}

} // verus!
