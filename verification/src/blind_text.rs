//! Blind-indexed full-text search: tokenisation and keyed token hashing.
//!
//! Each indexed token is stored only as a keyed BLAKE3 hash under a per-user
//! search key derived from the master key, so the index is readable only
//! under an unlocked keystore. Whole-word matching only; multi-word queries
//! are AND-combined; the same tokenisation runs at index and query time.

use crate::crypto::envelope::MasterKey;
use crate::text::{lemma_lex_irreflexive, lemma_lex_total, lemma_lex_trans, lex_lt, chars_eq, push_chars, spec_lex_lt, string_of};
use vstd::prelude::*;

verus! {

/// Domain-separation context of the per-user search key.
pub const SEARCH_KEY_LABEL: &'static str = "mv.search_key.v1";

/// Label mixed into every token hash, `mv.search_key.v1.token`.
pub const TOKEN_BLIND_LABEL: [u8; 22] = [0x6d, 0x76, 0x2e, 0x73, 0x65, 0x61, 0x72, 0x63, 0x68, 0x5f, 0x6b, 0x65, 0x79, 0x2e, 0x76, 0x31, 0x2e, 0x74, 0x6f, 0x6b, 0x65, 0x6e];

// ----------------------------------------------------------- outside calls

/// Whether `c` is alphabetic or numeric, as `char::is_alphanumeric` says.
pub uninterp spec fn spec_is_alphanumeric(c: char) -> bool;

/// The lowercase mapping of `c`, as `char::to_lowercase` yields it.
pub uninterp spec fn spec_to_lowercase(c: char) -> Seq<char>;

/// BLAKE3 in keyed mode over `data` under `key`.
pub uninterp spec fn spec_blake3_keyed_hash(key: Seq<u8>, data: Seq<u8>) -> Seq<u8>;

/// BLAKE3 in key-derivation mode for `context` over `material`.
pub uninterp spec fn spec_blake3_derive_key(context: Seq<char>, material: Seq<u8>) -> Seq<u8>;

/// Calls `char::is_alphanumeric`. The contract claims that the result is
/// the function of `c` named `spec_is_alphanumeric`, and, for an ASCII
/// character, what the documentation gives: it is alphabetic or numeric
/// exactly when it is a letter or a digit.
#[verifier::external_body]
fn is_alphanumeric(c: char) -> (b: bool)
    ensures
        b == spec_is_alphanumeric(c),
        (c as u32) < 0x80 ==> (b == (('a' <= c && c <= 'z') || ('A' <= c && c <= 'Z') || ('0' <= c && c <= '9'))),
{
    c.is_alphanumeric()
}

/// Calls `char::to_lowercase`. The contract claims that the result is the
/// function of `c` named `spec_to_lowercase`, and, as the documentation of
/// `to_lowercase` says, that it has one or more characters: for an ASCII
/// capital the small letter, for any other ASCII character (which has no
/// lowercase mapping) the character itself.
#[verifier::external_body]
fn to_lowercase(c: char) -> (v: Vec<char>)
    ensures
        v@ == spec_to_lowercase(c),
        v@.len() >= 1,
        'A' <= c && c <= 'Z' ==> v@ == seq![((c as u32) + 32) as char],
        (c as u32) < 0x80 && !('A' <= c && c <= 'Z') ==> v@ == seq![c],
{
    c.to_lowercase().collect()
}

/// Calls `blake3::keyed_hash`. The contract claims that the result is the
/// function of key and data named `spec_blake3_keyed_hash`, and that it is a
/// 32-byte hash, as its type says.
#[verifier::external_body]
fn blake3_keyed_hash(key: &[u8; 32], data: &[u8]) -> (h: [u8; 32])
    ensures
        h@ == spec_blake3_keyed_hash(key@, data@),
{
    *blake3::keyed_hash(key, data).as_bytes()
}

/// Calls `blake3::derive_key`. The contract claims only that the result is
/// the function of context and key material named `spec_blake3_derive_key`.
#[verifier::external_body]
fn blake3_derive_key(context: &str, material: &[u8]) -> (k: [u8; 32])
    ensures
        k@ == spec_blake3_derive_key(context@, material@),
{
    blake3::derive_key(context, material)
}

// ------------------------------------------------------------- search key

/// Derive the per-user search key from the master key (BLAKE3 `derive_key`
/// under the context `mv.search_key.v1`).
pub fn derive_search_key(master_key: &MasterKey) -> (k: [u8; 32])
    ensures
        k@ == spec_blake3_derive_key(SEARCH_KEY_LABEL@, master_key@),
{
    blake3_derive_key(SEARCH_KEY_LABEL, master_key.as_bytes())
}

// ------------------------------------------------------------- tokenising

/// Scanning `s` left to right: the words completed so far and the word in
/// progress. An alphanumeric character extends the word in progress by its
/// lowercase mapping; any other character completes a non-empty word in
/// progress.
pub open spec fn spec_scan(s: Seq<char>) -> (Seq<Seq<char>>, Seq<char>)
    decreases s.len(),
{
    if s.len() == 0 {
        (Seq::empty(), Seq::empty())
    } else {
        let (w, cur) = spec_scan(s.drop_last());
        let c = s.last();
        if spec_is_alphanumeric(c) {
            (w, cur + spec_to_lowercase(c))
        } else if cur.len() > 0 {
            (w.push(cur), Seq::empty())
        } else {
            (w, cur)
        }
    }
}

/// Law: how a text is cut into words, character by character. An
/// alphanumeric character extends the word in progress by its lowercase
/// mapping; any other character ends the word in progress, if any, which
/// joins the words; at the end a word in progress is the last word.
pub proof fn lemma_scan_rule(s: Seq<char>, c: char)
    ensures
        spec_scan(seq![]) == (Seq::<Seq<char>>::empty(), Seq::<char>::empty()),
        spec_is_alphanumeric(c) ==> spec_scan(s.push(c)) == (spec_scan(s).0, spec_scan(s).1 + spec_to_lowercase(c)),
        !spec_is_alphanumeric(c) && spec_scan(s).1.len() > 0 ==> spec_scan(s.push(c)) == (spec_scan(s).0.push(
            spec_scan(s).1,
        ), Seq::<char>::empty()),
        !spec_is_alphanumeric(c) && spec_scan(s).1.len() == 0 ==> spec_scan(s.push(c)) == spec_scan(s),
        spec_words(s) == if spec_scan(s).1.len() > 0 {
            spec_scan(s).0.push(spec_scan(s).1)
        } else {
            spec_scan(s).0
        },
{
    assert(s.push(c).drop_last() =~= s);
}

/// The words of `s`: maximal runs of alphanumeric characters, lowercased,
/// in order of appearance, repeats included.
pub open spec fn spec_words(s: Seq<char>) -> Seq<Seq<char>> {
    let (w, cur) = spec_scan(s);
    if cur.len() > 0 {
        w.push(cur)
    } else {
        w
    }
}

/// What [`tokenize`] returns for `text`: the distinct words of `text`, in
/// increasing order.
pub open spec fn spec_tokens_ok(text: Seq<char>, out: Seq<Seq<char>>) -> bool {
    &&& forall|i: int, j: int| 0 <= i < j < out.len() ==> spec_lex_lt(#[trigger] out[i], #[trigger] out[j])
    &&& forall|i: int| 0 <= i < out.len() ==> spec_words(text).contains(#[trigger] out[i])
    &&& forall|i: int|
        0 <= i < spec_words(text).len() ==> #[trigger] out.contains(spec_words(text)[i])
}

fn words(text: &str) -> (w: Vec<Vec<char>>)
    ensures
        w@.map_values(|v: Vec<char>| v@) == spec_words(text@),
{
    let cs = crate::text::chars_of(text);
    let mut w: Vec<Vec<char>> = Vec::new();
    let mut cur: Vec<char> = Vec::new();
    let mut i: usize = 0;
    while i < cs.len()
        invariant
            i <= cs@.len(),
            cs@ == text@,
            (w@.map_values(|v: Vec<char>| v@), cur@) == spec_scan(cs@.subrange(0, i as int)),
        decreases cs@.len() - i,
    {
        assert(cs@.subrange(0, i + 1).drop_last() =~= cs@.subrange(0, i as int));
        let c = cs[i];
        if is_alphanumeric(c) {
            let low = to_lowercase(c);
            cur = crate::text::concat(&cur, &low);
        } else if cur.len() > 0 {
            let ghost before = w@.map_values(|v: Vec<char>| v@);
            let mut done: Vec<char> = Vec::new();
            std::mem::swap(&mut done, &mut cur);
            w.push(done);
            assert(w@.map_values(|v: Vec<char>| v@) =~= before.push(done@));
        }
        i = i + 1;
    }
    assert(cs@.subrange(0, cs@.len() as int) =~= cs@);
    if cur.len() > 0 {
        let ghost before = w@.map_values(|v: Vec<char>| v@);
        w.push(cur);
        assert(w@.map_values(|v: Vec<char>| v@) =~= before.push(cur@));
    }
    w
}

/// Normalise and split a text block into match tokens: lowercase, split on
/// every character that is not alphanumeric, drop repeats, sort.
pub fn tokenize(text: &str) -> (out: Vec<String>)
    ensures
        spec_tokens_ok(text@, out@.map_values(|s: String| s@)),
{
    let ws = words(text);
    let ghost wv = ws@.map_values(|v: Vec<char>| v@);
    let mut sorted: Vec<Vec<char>> = Vec::new();
    let mut i: usize = 0;
    while i < ws.len()
        invariant
            i <= ws@.len(),
            wv == ws@.map_values(|v: Vec<char>| v@),
            forall|a: int, b: int|
                0 <= a < b < sorted@.len() ==> spec_lex_lt(#[trigger] sorted@[a]@, #[trigger] sorted@[b]@),
            forall|a: int| 0 <= a < sorted@.len() ==> wv.subrange(0, i as int).contains(#[trigger] sorted@[a]@),
            forall|q: int| #![trigger wv[q]] 0 <= q < i ==> exists|a: int| 0 <= a < sorted@.len() && #[trigger] sorted@[a]@ == wv[q],
        decreases ws@.len() - i,
    {
        let x = &ws[i];
        assert(x@ == wv[i as int]);
        let mut j: usize = 0;
        let mut found = false;
        let mut stop = false;
        while j < sorted.len() && !stop
            invariant
                j <= sorted@.len(),
                found ==> stop && j < sorted@.len() && sorted@[j as int]@ == x@,
                stop && !found ==> j < sorted@.len() && spec_lex_lt(x@, sorted@[j as int]@),
                forall|q: int| 0 <= q < j ==> spec_lex_lt(#[trigger] sorted@[q]@, x@),
            decreases (if stop { 0int } else { 1int }) + sorted@.len() - j,
        {
            if chars_eq(&sorted[j], x) {
                found = true;
                stop = true;
            } else if lex_lt(x, &sorted[j]) {
                stop = true;
            } else {
                proof { lemma_lex_total(sorted@[j as int]@, x@); }
                j = j + 1;
            }
        }
        let ghost old_s = sorted@;
        assert(wv.subrange(0, i + 1) =~= wv.subrange(0, i as int).push(x@));
        if !found {
            sorted.insert(j, x.clone());
            assert(sorted@[j as int]@ == x@);
            assert forall|a: int, b: int|
                0 <= a < b < sorted@.len() implies spec_lex_lt(#[trigger] sorted@[a]@, #[trigger] sorted@[b]@) by {
                if b < j {
                    assert(sorted@[a] == old_s[a] && sorted@[b] == old_s[b]);
                } else if b == j {
                    assert(sorted@[a] == old_s[a]);
                } else if a == j {
                    assert(sorted@[b] == old_s[b - 1]);
                    if b - 1 > j {
                        lemma_lex_trans(x@, old_s[j as int]@, old_s[b - 1]@);
                    }
                } else if a < j {
                    assert(sorted@[a] == old_s[a] && sorted@[b] == old_s[b - 1]);
                    lemma_lex_trans(old_s[a]@, x@, old_s[j as int]@);
                    if b - 1 > j {
                        lemma_lex_trans(old_s[a]@, old_s[j as int]@, old_s[b - 1]@);
                    }
                } else {
                    assert(sorted@[a] == old_s[a - 1] && sorted@[b] == old_s[b - 1]);
                }
            }
            assert forall|a: int| 0 <= a < sorted@.len() implies wv.subrange(0, i + 1).contains(
                #[trigger] sorted@[a]@,
            ) by {
                if a < j {
                    assert(sorted@[a] == old_s[a]);
                    let w = choose|w: int| 0 <= w < i && wv.subrange(0, i as int)[w] == old_s[a]@;
                    assert(wv.subrange(0, i + 1)[w] == old_s[a]@);
                } else if a > j {
                    assert(sorted@[a] == old_s[a - 1]);
                    let w = choose|w: int| 0 <= w < i && wv.subrange(0, i as int)[w] == old_s[a - 1]@;
                    assert(wv.subrange(0, i + 1)[w] == old_s[a - 1]@);
                } else {
                    assert(wv.subrange(0, i + 1)[i as int] == x@);
                }
            }
            assert forall|q: int| #![trigger wv[q]] 0 <= q < i + 1 implies exists|a: int|
                0 <= a < sorted@.len() && #[trigger] sorted@[a]@ == wv[q] by {
                if q == i {
                    assert(sorted@[j as int]@ == wv[q]);
                } else {
                    let a = choose|a: int| 0 <= a < old_s.len() && #[trigger] old_s[a]@ == wv[q];
                    if a < j {
                        assert(sorted@[a] == old_s[a]);
                    } else {
                        assert(sorted@[a + 1] == old_s[a]);
                    }
                }
            }
        } else {
            assert forall|a: int| 0 <= a < sorted@.len() implies wv.subrange(0, i + 1).contains(
                #[trigger] sorted@[a]@,
            ) by {
                let w = choose|w: int| 0 <= w < i && wv.subrange(0, i as int)[w] == sorted@[a]@;
                assert(wv.subrange(0, i + 1)[w] == sorted@[a]@);
            }
            assert forall|q: int| #![trigger wv[q]] 0 <= q < i + 1 implies exists|a: int|
                0 <= a < sorted@.len() && #[trigger] sorted@[a]@ == wv[q] by {
                if q == i {
                    assert(sorted@[j as int]@ == wv[q]);
                }
            }
        }
        i = i + 1;
    }
    assert(wv.subrange(0, wv.len() as int) =~= wv);
    let mut out: Vec<String> = Vec::new();
    let mut k: usize = 0;
    while k < sorted.len()
        invariant
            k <= sorted@.len(),
            out@.len() == k,
            forall|a: int| 0 <= a < k ==> (#[trigger] out@[a])@ == sorted@[a]@,
        decreases sorted@.len() - k,
    {
        out.push(string_of(&sorted[k]));
        k = k + 1;
    }
    let ghost ov = out@.map_values(|s: String| s@);
    assert forall|a: int| 0 <= a < ov.len() implies ov[a] == sorted@[a]@ by {
        assert(ov[a] == out@[a]@);
    }
    assert forall|q: int| 0 <= q < wv.len() implies #[trigger] ov.contains(wv[q]) by {
        let a = choose|a: int| 0 <= a < sorted@.len() && #[trigger] sorted@[a]@ == wv[q];
        assert(ov[a] == wv[q]);
    }
    assert forall|a: int, b: int| 0 <= a < b < ov.len() implies spec_lex_lt(#[trigger] ov[a], #[trigger] ov[b]) by {
        assert(ov[a] == sorted@[a]@ && ov[b] == sorted@[b]@);
    }
    assert forall|a: int| 0 <= a < ov.len() implies wv.contains(#[trigger] ov[a]) by {
        assert(ov[a] == sorted@[a]@);
    }
    out
}

} // verus!

verus! {

// ------------------------------------------------------------- token hashing

/// The lowercase hexadecimal digit of a nibble.
pub open spec fn spec_hex_digit(n: int) -> char {
    if n < 10 {
        ((n + 48) as u32) as char
    } else {
        ((n + 87) as u32) as char
    }
}

/// Lowercase hexadecimal of `bytes`, two digits per byte.
pub open spec fn spec_hex(bytes: Seq<u8>) -> Seq<char>
    decreases bytes.len(),
{
    if bytes.len() == 0 {
        Seq::empty()
    } else {
        spec_hex(bytes.drop_last()) + seq![
            spec_hex_digit(bytes.last() as int / 16),
            spec_hex_digit(bytes.last() as int % 16),
        ]
    }
}

/// The input of a token's keyed hash: the label, a zero byte, then the
/// token's UTF-8 bytes.
pub open spec fn spec_blind_input(token: Seq<char>) -> Seq<u8> {
    TOKEN_BLIND_LABEL@ + seq![0u8] + vstd::utf8::encode_utf8(token)
}

/// The blind form of `token` under `key`: the first 16 bytes of its keyed
/// hash, as 32 lowercase hex digits.
pub open spec fn spec_token_blind(key: Seq<u8>, token: Seq<char>) -> Seq<char> {
    spec_hex(spec_blake3_keyed_hash(key, spec_blind_input(token)).subrange(0, 16))
}

fn hex_digit(n: u8) -> (c: char)
    requires
        n < 16,
    ensures
        c == spec_hex_digit(n as int),
{
    if n < 10 {
        (n + 48) as char
    } else {
        (n + 87) as char
    }
}

/// Lowercase hexadecimal of `bytes`, two digits per byte.
pub fn hex_string(bytes: &[u8]) -> (out: String)
    ensures
        out@ == spec_hex(bytes@),
{
    let mut out = String::new();
    let mut k: usize = 0;
    while k < bytes.len()
        invariant
            k <= bytes@.len(),
            out@ == spec_hex(bytes@.subrange(0, k as int)),
        decreases bytes@.len() - k,
    {
        let b = bytes[k];
        out.push(hex_digit(b / 16));
        out.push(hex_digit(b % 16));
        assert(bytes@.subrange(0, k + 1).drop_last() =~= bytes@.subrange(0, k as int));
        k = k + 1;
        assert(out@ =~= spec_hex(bytes@.subrange(0, k as int)));
    }
    assert(bytes@.subrange(0, bytes@.len() as int) =~= bytes@);
    out
}

/// Whether `c` is a lowercase hexadecimal digit.
pub open spec fn spec_is_lower_hex(c: char) -> bool {
    ('0' <= c && c <= '9') || ('a' <= c && c <= 'f')
}

pub proof fn lemma_hex_shape(bytes: Seq<u8>)
    ensures
        spec_hex(bytes).len() == 2 * bytes.len(),
        forall|i: int| 0 <= i < spec_hex(bytes).len() ==> spec_is_lower_hex(#[trigger] spec_hex(bytes)[i]),
    decreases bytes.len(),
{
    if bytes.len() > 0 {
        lemma_hex_shape(bytes.drop_last());
        let h = spec_hex(bytes.drop_last());
        let hi = bytes.last() as int / 16;
        let lo = bytes.last() as int % 16;
        assert(0 <= hi < 16 && 0 <= lo < 16);
        assert forall|i: int| 0 <= i < spec_hex(bytes).len() implies spec_is_lower_hex(#[trigger] spec_hex(bytes)[i]) by {
            if i < h.len() {
                assert(spec_hex(bytes)[i] == h[i]);
            }
        }
    }
}

/// Law: hexadecimal is two digits per byte, the high half first, each digit
/// `0`-`9` then `a`-`f`.
pub proof fn lemma_hex_digits(bytes: Seq<u8>)
    ensures
        spec_hex(bytes).len() == 2 * bytes.len(),
        forall|i: int| 0 <= i < bytes.len() ==> (#[trigger] spec_hex(bytes)[2 * i]) as u32 == (if bytes[i] / 16 < 10 {
            48 + bytes[i] / 16
        } else {
            87 + bytes[i] / 16
        }) && spec_hex(bytes)[2 * i + 1] as u32 == (if bytes[i] % 16 < 10 {
            48 + bytes[i] % 16
        } else {
            87 + bytes[i] % 16
        }),
    decreases bytes.len(),
{
    lemma_hex_shape(bytes);
    if bytes.len() > 0 {
        let pre = bytes.drop_last();
        lemma_hex_digits(pre);
        lemma_hex_shape(pre);
        let h = spec_hex(pre);
        assert forall|i: int| 0 <= i < bytes.len() implies (#[trigger] spec_hex(bytes)[2 * i]) as u32 == (if bytes[i]
            / 16 < 10 {
            48 + bytes[i] / 16
        } else {
            87 + bytes[i] / 16
        }) && spec_hex(bytes)[2 * i + 1] as u32 == (if bytes[i] % 16 < 10 {
            48 + bytes[i] % 16
        } else {
            87 + bytes[i] % 16
        }) by {
            if i < pre.len() {
                assert(bytes[i] == pre[i]);
                assert(spec_hex(bytes)[2 * i] == h[2 * i]);
                assert(spec_hex(bytes)[2 * i + 1] == h[2 * i + 1]);
            } else {
                assert(bytes[i] == bytes.last());
            }
        }
    }
}

/// Law: the search key is derived under the context `mv.search_key.v1`, and
/// a token is hashed after the label `mv.search_key.v1.token` and a zero
/// byte.
pub proof fn lemma_blind_labels()
    ensures
        SEARCH_KEY_LABEL@ == "mv.search_key.v1"@,
        TOKEN_BLIND_LABEL@ == seq![109u8, 118, 46, 115, 101, 97, 114, 99, 104, 95, 107, 101, 121, 46, 118, 49, 46, 116, 111, 107, 101, 110],
        forall|t: Seq<char>| #[trigger] spec_blind_input(t) == TOKEN_BLIND_LABEL@ + seq![0u8] + vstd::utf8::encode_utf8(t),
{
    assert(TOKEN_BLIND_LABEL@ =~= seq![109u8, 118, 46, 115, 101, 97, 114, 99, 104, 95, 107, 101, 121, 46, 118, 49, 46, 116, 111, 107, 101, 110]);
}

/// Hash one normalised token under the search key: BLAKE3 in keyed mode
/// over `mv.search_key.v1.token`, a zero byte and the token, truncated to
/// 16 bytes and written as 32 lowercase hex digits.
pub fn token_blind(search_key: &[u8; 32], token: &str) -> (out: String)
    ensures
        out@ == spec_token_blind(search_key@, token@),
        out@.len() == 32,
        forall|i: int| 0 <= i < 32 ==> spec_is_lower_hex(#[trigger] out@[i]),
{
    let mut data: Vec<u8> = Vec::new();
    let mut i: usize = 0;
    while i < 22
        invariant
            i <= 22,
            data@ == TOKEN_BLIND_LABEL@.subrange(0, i as int),
        decreases 22 - i,
    {
        data.push(TOKEN_BLIND_LABEL[i]);
        i = i + 1;
        assert(data@ =~= TOKEN_BLIND_LABEL@.subrange(0, i as int));
    }
    assert(TOKEN_BLIND_LABEL@.subrange(0, 22) =~= TOKEN_BLIND_LABEL@);
    data.push(0u8);
    let tb = token.as_bytes();
    let ghost pre = data@;
    let mut j: usize = 0;
    while j < tb.len()
        invariant
            j <= tb@.len(),
            data@ == pre + tb@.subrange(0, j as int),
        decreases tb@.len() - j,
    {
        data.push(tb[j]);
        j = j + 1;
        assert(data@ =~= pre + tb@.subrange(0, j as int));
    }
    assert(tb@.subrange(0, tb@.len() as int) =~= tb@);
    assert(data@ =~= spec_blind_input(token@));
    let h = blake3_keyed_hash(search_key, &data);
    let mut out = String::new();
    let mut k: usize = 0;
    while k < 16
        invariant
            k <= 16,
            h@.len() == 32,
            out@ == spec_hex(h@.subrange(0, k as int)),
        decreases 16 - k,
    {
        let b = h[k];
        out.push(hex_digit(b / 16));
        out.push(hex_digit(b % 16));
        assert(h@.subrange(0, k + 1).drop_last() =~= h@.subrange(0, k as int));
        k = k + 1;
        assert(out@ =~= spec_hex(h@.subrange(0, k as int)));
    }
    proof { lemma_hex_shape(h@.subrange(0, 16)); }
    out
}

/// The words of a blind index entry or a blind query: the blind form of
/// each token, separated by single spaces.
pub open spec fn spec_blind_join(key: Seq<u8>, tokens: Seq<Seq<char>>) -> Seq<char>
    decreases tokens.len(),
{
    if tokens.len() == 0 {
        Seq::empty()
    } else if tokens.len() == 1 {
        spec_token_blind(key, tokens[0])
    } else {
        spec_blind_join(key, tokens.drop_last()) + " "@ + spec_token_blind(key, tokens.last())
    }
}

/// Blind every token and join the results with spaces: the text stored in
/// the blind index for an asset, and the MATCH expression of a query.
pub fn blind_join(search_key: &[u8; 32], tokens: &Vec<String>) -> (out: String)
    ensures
        out@ == spec_blind_join(search_key@, tokens@.map_values(|s: String| s@)),
{
    let ghost tv = tokens@.map_values(|s: String| s@);
    let mut out = String::new();
    let mut i: usize = 0;
    while i < tokens.len()
        invariant
            i <= tokens@.len(),
            tv == tokens@.map_values(|s: String| s@),
            out@ == spec_blind_join(search_key@, tv.subrange(0, i as int)),
        decreases tokens@.len() - i,
    {
        let b = token_blind(search_key, tokens[i].as_str());
        let ghost before = out@;
        assert(tv.subrange(0, i + 1).drop_last() =~= tv.subrange(0, i as int));
        assert(tv.subrange(0, i + 1).last() == tokens@[i as int]@);
        if i > 0 {
            out.push_str(" ");
        }
        out.push_str(b.as_str());
        i = i + 1;
        if i == 1 {
            assert(tv.subrange(0, 1)[0] == tokens@[0]@);
            assert(out@ =~= spec_blind_join(search_key@, tv.subrange(0, i as int)));
        } else {
            assert(out@ =~= spec_blind_join(search_key@, tv.subrange(0, i as int)));
        }
    }
    assert(tv.subrange(0, tv.len() as int) =~= tv);
    out
}

/// Law: a blind index entry is the blind form of each token, separated by
/// single spaces; the blind form of a token is the lowercase hex of the first
/// 16 bytes of its keyed hash, 32 digits.
pub proof fn lemma_blind_join_rule(key: Seq<u8>, ts: Seq<Seq<char>>, t: Seq<char>)
    ensures
        spec_blind_join(key, seq![]) == Seq::<char>::empty(),
        spec_blind_join(key, seq![t]) == spec_token_blind(key, t),
        ts.len() > 0 ==> spec_blind_join(key, ts.push(t)) == spec_blind_join(key, ts) + seq![' '] + spec_token_blind(key, t),
        spec_token_blind(key, t) == spec_hex(spec_blake3_keyed_hash(key, spec_blind_input(t)).subrange(0, 16)),
{
    reveal_strlit(" ");
    assert(" "@ =~= seq![' ']);
    assert(ts.push(t).drop_last() =~= ts);
    assert(seq![t][0] == t);
}

} // verus!
