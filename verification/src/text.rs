//! Character and string helpers shared by the parsers of the library.

use vstd::prelude::*;

verus! {

pub assume_specification[ String::push ](s: &mut String, ch: char)
    ensures
        final(s)@ == old(s)@.push(ch),
;

/// ASCII lowercase of one character; other characters are unchanged.
pub open spec fn spec_lower_ascii_char(c: char) -> char {
    if 'A' <= c && c <= 'Z' {
        ((c as u32) + 32) as char
    } else {
        c
    }
}

/// ASCII lowercase of a character sequence.
pub open spec fn spec_lower_ascii(s: Seq<char>) -> Seq<char> {
    s.map_values(|c: char| spec_lower_ascii_char(c))
}

/// ASCII lowercase of one character.
pub fn lower_ascii_char(c: char) -> (r: char)
    ensures
        r == spec_lower_ascii_char(c),
{
    if 'A' <= c && c <= 'Z' {
        let u: u32 = (c as u32) + 32;
        let b: u8 = u as u8;
        b as char
    } else {
        c
    }
}

/// The characters of `s`, in order.
pub fn chars_of(s: &str) -> (out: Vec<char>)
    ensures
        out@ == s@,
{
    let mut out: Vec<char> = Vec::new();
    for c in it: s.chars()
        invariant
            out@ == it.seq().subrange(0, it.index() as int),
    {
        out.push(c);
    }
    out
}

/// A string made of the characters of `v`.
pub fn string_of(v: &[char]) -> (out: String)
    ensures
        out@ == v@,
{
    let mut out = String::new();
    let mut i: usize = 0;
    while i < v.len()
        invariant
            i <= v@.len(),
            out@ == v@.subrange(0, i as int),
        decreases v@.len() - i,
    {
        out.push(v[i]);
        i = i + 1;
        assert(out@ =~= v@.subrange(0, i as int));
    }
    assert(v@.subrange(0, v@.len() as int) =~= v@);
    out
}

} // verus!

verus! {

/// Whether `v` holds exactly the characters of `lit`.
pub fn eq_lit(v: &[char], lit: &str) -> (b: bool)
    ensures
        b == (v@ == lit@),
{
    let l = chars_of(lit);
    if l.len() != v.len() {
        return false;
    }
    let mut i: usize = 0;
    while i < v.len()
        invariant
            i <= v@.len(),
            l@.len() == v@.len(),
            l@ == lit@,
            forall|k: int| 0 <= k < i ==> v@[k] == l@[k],
        decreases v@.len() - i,
    {
        if v[i] != l[i] {
            return false;
        }
        i = i + 1;
    }
    assert(v@ =~= l@);
    true
}

/// Whether `v` begins with the characters of `lit`.
pub fn starts_with_lit(v: &[char], lit: &str) -> (b: bool)
    ensures
        b == lit@.is_prefix_of(v@),
{
    let l = chars_of(lit);
    if l.len() > v.len() {
        return false;
    }
    let mut i: usize = 0;
    while i < l.len()
        invariant
            i <= l@.len(),
            l@.len() <= v@.len(),
            l@ == lit@,
            forall|k: int| 0 <= k < i ==> v@[k] == l@[k],
        decreases l@.len() - i,
    {
        if v[i] != l[i] {
            return false;
        }
        i = i + 1;
    }
    true
}

/// Whether `v` ends with the characters of `lit`.
pub fn ends_with_lit(v: &[char], lit: &str) -> (b: bool)
    ensures
        b == lit@.is_suffix_of(v@),
{
    let l = chars_of(lit);
    if l.len() > v.len() {
        return false;
    }
    let off = v.len() - l.len();
    let mut i: usize = 0;
    while i < l.len()
        invariant
            i <= l@.len(),
            l@.len() <= v@.len(),
            off + l@.len() == v@.len(),
            l@ == lit@,
            forall|k: int| 0 <= k < i ==> v@[off + k] == l@[k],
        decreases l@.len() - i,
    {
        assert(off + i < v.len());
        if v[off + i] != l[i] {
            return false;
        }
        i = i + 1;
    }
    true
}

/// ASCII lowercase of a character slice.
pub fn lower_ascii(v: &[char]) -> (out: Vec<char>)
    ensures
        out@ == spec_lower_ascii(v@),
{
    let mut out: Vec<char> = Vec::new();
    let mut i: usize = 0;
    while i < v.len()
        invariant
            i <= v@.len(),
            out@ =~= spec_lower_ascii(v@.subrange(0, i as int)),
        decreases v@.len() - i,
    {
        let c = lower_ascii_char(v[i]);
        out.push(c);
        i = i + 1;
        assert(spec_lower_ascii(v@.subrange(0, i as int)) =~= spec_lower_ascii(
            v@.subrange(0, (i - 1) as int),
        ).push(c));
    }
    assert(v@.subrange(0, v@.len() as int) =~= v@);
    out
}

/// Index of the last occurrence of `c` in `s`, or -1.
pub open spec fn spec_last_index_of(s: Seq<char>, c: char) -> int
    decreases s.len(),
{
    if s.len() == 0 {
        -1
    } else if s.last() == c {
        s.len() - 1
    } else {
        spec_last_index_of(s.drop_last(), c)
    }
}

pub proof fn lemma_last_index_of_bounds(s: Seq<char>, c: char)
    ensures
        -1 <= spec_last_index_of(s, c) < s.len(),
        spec_last_index_of(s, c) >= 0 ==> s[spec_last_index_of(s, c)] == c,
        forall|k: int|
            spec_last_index_of(s, c) < k < s.len() ==> s[k] != c,
    decreases s.len(),
{
    if s.len() > 0 && s.last() != c {
        lemma_last_index_of_bounds(s.drop_last(), c);
        assert forall|k: int| spec_last_index_of(s, c) < k < s.len() implies s[k] != c by {
            if k < s.len() - 1 {
                assert(s[k] == s.drop_last()[k]);
            }
        }
    }
}

/// Index of the last occurrence of `c` in `v`, if any.
pub fn last_index_of(v: &[char], c: char) -> (r: Option<usize>)
    ensures
        match r {
            Some(k) => k as int == spec_last_index_of(v@, c),
            None => spec_last_index_of(v@, c) == -1,
        },
{
    proof { lemma_last_index_of_bounds(v@, c); }
    let mut i: usize = v.len();
    while i > 0
        invariant
            i <= v@.len(),
            forall|k: int| i <= k < v@.len() ==> v@[k] != c,
        decreases i,
    {
        if v[i - 1] == c {
            proof { lemma_last_index_from(v@, c, (i - 1) as int); }
            return Some(i - 1);
        }
        i = i - 1;
    }
    proof { lemma_last_index_from(v@, c, -1); }
    None
}

/// If `s[k] == c` (or `k == -1`) and no later index holds `c`, `k` is the
/// last index of `c`.
pub proof fn lemma_last_index_from(s: Seq<char>, c: char, k: int)
    requires
        -1 <= k < s.len(),
        k >= 0 ==> s[k] == c,
        forall|j: int| k < j < s.len() ==> s[j] != c,
    ensures
        spec_last_index_of(s, c) == k,
    decreases s.len(),
{
    if s.len() > 0 && s.last() != c {
        assert forall|j: int| k < j < s.drop_last().len() implies s.drop_last()[j] != c by {
            assert(s.drop_last()[j] == s[j]);
        }
        lemma_last_index_from(s.drop_last(), c, k);
    }
}

/// A copy of `v[from..to]`.
pub fn slice_to_vec(v: &[char], from: usize, to: usize) -> (out: Vec<char>)
    requires
        from <= to <= v@.len(),
    ensures
        out@ == v@.subrange(from as int, to as int),
{
    let mut out: Vec<char> = Vec::new();
    let mut i: usize = from;
    while i < to
        invariant
            from <= i <= to,
            to <= v@.len(),
            out@ =~= v@.subrange(from as int, i as int),
        decreases to - i,
    {
        out.push(v[i]);
        i = i + 1;
    }
    out
}

/// Whether `c` is an ASCII decimal digit.
pub open spec fn spec_is_ascii_digit(c: char) -> bool {
    '0' <= c && c <= '9'
}

/// Whether every character of `s` is an ASCII decimal digit.
pub open spec fn spec_all_ascii_digits(s: Seq<char>) -> bool {
    forall|k: int| 0 <= k < s.len() ==> spec_is_ascii_digit(#[trigger] s[k])
}

/// Whether every character of `v` is an ASCII decimal digit.
pub fn all_ascii_digits(v: &[char]) -> (b: bool)
    ensures
        b == spec_all_ascii_digits(v@),
{
    let mut i: usize = 0;
    while i < v.len()
        invariant
            i <= v@.len(),
            forall|k: int| 0 <= k < i ==> spec_is_ascii_digit(#[trigger] v@[k]),
        decreases v@.len() - i,
    {
        if !('0' <= v[i] && v[i] <= '9') {
            return false;
        }
        i = i + 1;
    }
    true
}

} // verus!

verus! {

/// ASCII uppercase of one character; other characters are unchanged.
pub open spec fn spec_upper_ascii_char(c: char) -> char {
    if 'a' <= c && c <= 'z' {
        ((c as u32) - 32) as char
    } else {
        c
    }
}

/// ASCII uppercase of a character sequence.
pub open spec fn spec_upper_ascii(s: Seq<char>) -> Seq<char> {
    s.map_values(|c: char| spec_upper_ascii_char(c))
}

/// ASCII uppercase of a character slice.
pub fn upper_ascii(v: &[char]) -> (out: Vec<char>)
    ensures
        out@ == spec_upper_ascii(v@),
{
    let mut out: Vec<char> = Vec::new();
    let mut i: usize = 0;
    while i < v.len()
        invariant
            i <= v@.len(),
            out@ =~= spec_upper_ascii(v@.subrange(0, i as int)),
        decreases v@.len() - i,
    {
        let c = v[i];
        let d = if 'a' <= c && c <= 'z' {
            let u: u32 = (c as u32) - 32;
            let b: u8 = u as u8;
            b as char
        } else {
            c
        };
        out.push(d);
        i = i + 1;
        assert(spec_upper_ascii(v@.subrange(0, i as int)) =~= spec_upper_ascii(
            v@.subrange(0, (i - 1) as int),
        ).push(d));
    }
    assert(v@.subrange(0, v@.len() as int) =~= v@);
    out
}

/// Whether two character slices are equal.
pub fn chars_eq(a: &[char], b: &[char]) -> (r: bool)
    ensures
        r == (a@ == b@),
{
    if a.len() != b.len() {
        return false;
    }
    let mut i: usize = 0;
    while i < a.len()
        invariant
            i <= a@.len(),
            a@.len() == b@.len(),
            forall|k: int| 0 <= k < i ==> a@[k] == b@[k],
        decreases a@.len() - i,
    {
        if a[i] != b[i] {
            return false;
        }
        i = i + 1;
    }
    assert(a@ =~= b@);
    true
}

/// Strict lexicographic order on character sequences (by code point), the
/// order of `str`'s `Ord`.
pub open spec fn spec_lex_lt(a: Seq<char>, b: Seq<char>) -> bool
    decreases a.len(),
{
    if a.len() == 0 {
        b.len() > 0
    } else if b.len() == 0 {
        false
    } else if (a[0] as u32) < (b[0] as u32) {
        true
    } else if a[0] == b[0] {
        spec_lex_lt(a.drop_first(), b.drop_first())
    } else {
        false
    }
}

pub proof fn lemma_lex_irreflexive(a: Seq<char>)
    ensures
        !spec_lex_lt(a, a),
    decreases a.len(),
{
    if a.len() > 0 {
        lemma_lex_irreflexive(a.drop_first());
    }
}

pub proof fn lemma_lex_total(a: Seq<char>, b: Seq<char>)
    ensures
        a == b || spec_lex_lt(a, b) || spec_lex_lt(b, a),
    decreases a.len(),
{
    if a.len() > 0 && b.len() > 0 && a[0] == b[0] {
        lemma_lex_total(a.drop_first(), b.drop_first());
        if a.drop_first() == b.drop_first() {
            assert(a =~= seq![a[0]] + a.drop_first());
            assert(b =~= seq![b[0]] + b.drop_first());
        }
    } else if a.len() > 0 && b.len() > 0 {
        let u = a[0] as u32;
        let w = b[0] as u32;
        vstd::utf8::char_u32_cast(a[0], u);
        vstd::utf8::char_u32_cast(b[0], w);
        assert(u != w);
    } else if a.len() == 0 && b.len() == 0 {
        assert(a =~= b);
    }
}

pub proof fn lemma_lex_asym(a: Seq<char>, b: Seq<char>)
    ensures
        !(spec_lex_lt(a, b) && spec_lex_lt(b, a)),
    decreases a.len(),
{
    if a.len() > 0 && b.len() > 0 && a[0] == b[0] {
        lemma_lex_asym(a.drop_first(), b.drop_first());
    }
}

pub proof fn lemma_lex_trans(a: Seq<char>, b: Seq<char>, c: Seq<char>)
    requires
        spec_lex_lt(a, b),
        spec_lex_lt(b, c),
    ensures
        spec_lex_lt(a, c),
    decreases a.len(),
{
    if a.len() > 0 && b.len() > 0 && c.len() > 0 && a[0] == b[0] && b[0] == c[0] {
        lemma_lex_trans(a.drop_first(), b.drop_first(), c.drop_first());
    }
}

/// Whether `a` sorts strictly before `b`.
pub fn lex_lt(a: &[char], b: &[char]) -> (r: bool)
    ensures
        r == spec_lex_lt(a@, b@),
{
    let mut i: usize = 0;
    assert(a@.subrange(0, a@.len() as int) =~= a@);
    assert(b@.subrange(0, b@.len() as int) =~= b@);
    while i < a.len() && i < b.len()
        invariant
            i <= a@.len(),
            i <= b@.len(),
            spec_lex_lt(a@, b@) == spec_lex_lt(a@.subrange(i as int, a@.len() as int), b@.subrange(i as int, b@.len() as int)),
        decreases a@.len() - i,
    {
        let x = a[i];
        let y = b[i];
        if (x as u32) < (y as u32) {
            return true;
        }
        if x != y {
            return false;
        }
        assert(a@.subrange(i as int, a@.len() as int).drop_first() =~= a@.subrange(i + 1, a@.len() as int));
        assert(b@.subrange(i as int, b@.len() as int).drop_first() =~= b@.subrange(i + 1, b@.len() as int));
        i = i + 1;
    }
    i < b.len()
}

} // verus!

verus! {

// ------------------------------------------------------------ searching

/// Index of the first occurrence of `needle` in `hay`, or -1.
pub open spec fn spec_find(hay: Seq<char>, needle: Seq<char>) -> int
    decreases hay.len(),
{
    if needle.is_prefix_of(hay) {
        0
    } else if hay.len() == 0 {
        -1
    } else {
        let r = spec_find(hay.drop_first(), needle);
        if r < 0 {
            -1
        } else {
            r + 1
        }
    }
}

/// Whether `needle` occurs in `hay` at index `i`.
pub open spec fn spec_occurs_at(hay: Seq<char>, needle: Seq<char>, i: int) -> bool {
    0 <= i && i + needle.len() <= hay.len() && hay.subrange(i, i + needle.len()) == needle
}

pub proof fn lemma_find(hay: Seq<char>, needle: Seq<char>)
    ensures
        -1 <= spec_find(hay, needle) <= hay.len(),
        spec_find(hay, needle) >= 0 ==> spec_occurs_at(hay, needle, spec_find(hay, needle)),
        forall|k: int|
            0 <= k <= hay.len() && (spec_find(hay, needle) < 0 || k < spec_find(hay, needle))
                ==> !spec_occurs_at(hay, needle, k),
    decreases hay.len(),
{
    if needle.is_prefix_of(hay) {
        assert(hay.subrange(0, needle.len() as int) =~= needle);
    } else if hay.len() == 0 {
        assert forall|k: int| 0 <= k <= hay.len() implies !spec_occurs_at(hay, needle, k) by {
            if spec_occurs_at(hay, needle, k) {
                assert(hay.subrange(0, needle.len() as int) =~= needle);
                assert(needle.is_prefix_of(hay));
            }
        }
    } else {
        let t = hay.drop_first();
        lemma_find(t, needle);
        assert forall|k: int|
            0 <= k <= hay.len() && (spec_find(hay, needle) < 0 || k < spec_find(hay, needle))
                implies !spec_occurs_at(hay, needle, k) by {
            if k == 0 {
                if spec_occurs_at(hay, needle, 0) {
                    assert forall|q: int| 0 <= q < needle.len() implies needle[q] == hay[q] by {
                        assert(hay.subrange(0, needle.len() as int)[q] == hay[q]);
                    }
                    assert(needle.is_prefix_of(hay));
                }
            } else {
                if spec_occurs_at(hay, needle, k) {
                    assert(t.subrange(k - 1, k - 1 + needle.len()) =~= hay.subrange(k, k + needle.len()));
                    assert(spec_occurs_at(t, needle, k - 1));
                }
            }
        }
        if spec_find(t, needle) >= 0 {
            let r = spec_find(t, needle);
            assert(t.subrange(r, r + needle.len()) =~= hay.subrange(r + 1, r + 1 + needle.len()));
        }
    }
}

/// The first index `k` with `spec_occurs_at` is what `spec_find` returns.
pub proof fn lemma_find_is_first(hay: Seq<char>, needle: Seq<char>, k: int)
    requires
        spec_occurs_at(hay, needle, k),
        forall|j: int| 0 <= j < k ==> !spec_occurs_at(hay, needle, j),
    ensures
        spec_find(hay, needle) == k,
{
    lemma_find(hay, needle);
}

/// No occurrence at any index means `spec_find` is -1.
pub proof fn lemma_find_none(hay: Seq<char>, needle: Seq<char>)
    requires
        forall|j: int| 0 <= j <= hay.len() ==> !spec_occurs_at(hay, needle, j),
    ensures
        spec_find(hay, needle) == -1,
{
    lemma_find(hay, needle);
}

/// Whether `needle` occurs in `hay` at index `i`.
pub fn occurs_at(hay: &[char], needle: &[char], i: usize) -> (b: bool)
    ensures
        b == spec_occurs_at(hay@, needle@, i as int),
{
    if i > hay.len() || needle.len() > hay.len() - i {
        return false;
    }
    let mut j: usize = 0;
    while j < needle.len()
        invariant
            j <= needle@.len(),
            i + needle@.len() <= hay@.len(),
            forall|q: int| 0 <= q < j ==> hay@[i + q] == needle@[q],
        decreases needle@.len() - j,
    {
        assert(i + j < hay.len());
        if hay[i + j] != needle[j] {
            assert(hay@.subrange(i as int, i + needle@.len())[j as int] != needle@[j as int]);
            return false;
        }
        j = j + 1;
    }
    assert(hay@.subrange(i as int, i + needle@.len()) =~= needle@);
    true
}

/// Index of the first occurrence of `needle` in `hay`.
pub fn find_seq(hay: &[char], needle: &[char]) -> (r: Option<usize>)
    ensures
        match r {
            Some(k) => k as int == spec_find(hay@, needle@),
            None => spec_find(hay@, needle@) == -1,
        },
{
    let mut i: usize = 0;
    while i <= hay.len()
        invariant
            i <= hay@.len() + 1,
            forall|j: int| 0 <= j < i ==> !spec_occurs_at(hay@, needle@, j),
        decreases hay@.len() + 1 - i,
    {
        if occurs_at(hay, needle, i) {
            proof { lemma_find_is_first(hay@, needle@, i as int); }
            return Some(i);
        }
        if i == hay.len() {
            proof { lemma_find_none(hay@, needle@); }
            return None;
        }
        i = i + 1;
    }
    proof { lemma_find_none(hay@, needle@); }
    None
}

// ------------------------------------------------------------ replacing

/// `s` with every non-overlapping occurrence of `pat`, scanned left to
/// right, replaced by `rep` (the behaviour of `str::replace`).
pub open spec fn spec_replace(s: Seq<char>, pat: Seq<char>, rep: Seq<char>) -> Seq<char>
    recommends
        pat.len() > 0,
    decreases s.len(),
{
    if s.len() == 0 || pat.len() == 0 {
        s
    } else if pat.is_prefix_of(s) {
        rep + spec_replace(s.subrange(pat.len() as int, s.len() as int), pat, rep)
    } else {
        seq![s[0]] + spec_replace(s.drop_first(), pat, rep)
    }
}

/// `s` with every occurrence of `pat` replaced by `rep`, as `str::replace`
/// does it.
pub fn replace_all(s: &[char], pat: &[char], rep: &[char]) -> (out: Vec<char>)
    requires
        pat@.len() > 0,
    ensures
        out@ == spec_replace(s@, pat@, rep@),
{
    let mut out: Vec<char> = Vec::new();
    let mut i: usize = 0;
    assert(s@.subrange(0, s@.len() as int) =~= s@);
    assert(out@ + s@ =~= s@);
    while i < s.len()
        invariant
            i <= s@.len(),
            pat@.len() > 0,
            out@ + spec_replace(s@.subrange(i as int, s@.len() as int), pat@, rep@) == spec_replace(
                s@,
                pat@,
                rep@,
            ),
        decreases s@.len() - i,
    {
        let ghost rest = s@.subrange(i as int, s@.len() as int);
        if occurs_at(s, pat, i) {
            assert(pat@.is_prefix_of(rest)) by {
                assert forall|q: int| 0 <= q < pat@.len() implies pat@[q] == rest[q] by {
                    assert(s@.subrange(i as int, i + pat@.len())[q] == s@[i + q]);
                }
            }
            assert(rest.subrange(pat@.len() as int, rest.len() as int) =~= s@.subrange(
                i + pat@.len(),
                s@.len() as int,
            ));
            let ghost before = out@;
            let mut k: usize = 0;
            while k < rep.len()
                invariant
                    k <= rep@.len(),
                    out@ == before + rep@.subrange(0, k as int),
                decreases rep@.len() - k,
            {
                out.push(rep[k]);
                k = k + 1;
                assert(out@ =~= before + rep@.subrange(0, k as int));
            }
            assert(rep@.subrange(0, rep@.len() as int) =~= rep@);
            assert(out@ + spec_replace(s@.subrange(i + pat@.len(), s@.len() as int), pat@, rep@)
                =~= before + (rep@ + spec_replace(s@.subrange(i + pat@.len(), s@.len() as int), pat@, rep@)));
            i = i + pat.len();
        } else {
            assert(!pat@.is_prefix_of(rest)) by {
                if pat@.is_prefix_of(rest) {
                    assert(s@.subrange(i as int, i + pat@.len()) =~= pat@);
                }
            }
            assert(rest.drop_first() =~= s@.subrange(i + 1, s@.len() as int));
            let ghost before = out@;
            out.push(s[i]);
            assert(out@ + spec_replace(s@.subrange(i + 1, s@.len() as int), pat@, rep@)
                =~= before + (seq![s@[i as int]] + spec_replace(s@.subrange(i + 1, s@.len() as int), pat@, rep@)));
            i = i + 1;
        }
    }
    assert(out@ =~= out@ + spec_replace(s@.subrange(i as int, s@.len() as int), pat@, rep@));
    out
}

// ------------------------------------------------------------ trimming

/// Unicode `White_Space`, the property `char::is_whitespace` tests.
pub open spec fn spec_is_whitespace(c: char) -> bool {
    let u = c as u32;
    (0x09 <= u && u <= 0x0d) || u == 0x20 || u == 0x85 || u == 0xa0 || u == 0x1680 || (0x2000 <= u
        && u <= 0x200a) || u == 0x2028 || u == 0x2029 || u == 0x202f || u == 0x205f || u == 0x3000
}

/// Whether `c` is Unicode white space.
pub fn is_whitespace(c: char) -> (b: bool)
    ensures
        b == spec_is_whitespace(c),
{
    let u = c as u32;
    (0x09 <= u && u <= 0x0d) || u == 0x20 || u == 0x85 || u == 0xa0 || u == 0x1680 || (0x2000 <= u
        && u <= 0x200a) || u == 0x2028 || u == 0x2029 || u == 0x202f || u == 0x205f || u == 0x3000
}

/// Number of leading white-space characters of `s`.
pub open spec fn spec_lead_ws(s: Seq<char>) -> int
    decreases s.len(),
{
    if s.len() == 0 || !spec_is_whitespace(s[0]) {
        0
    } else {
        1 + spec_lead_ws(s.drop_first())
    }
}

/// Number of trailing white-space characters of `s`.
pub open spec fn spec_trail_ws(s: Seq<char>) -> int
    decreases s.len(),
{
    if s.len() == 0 || !spec_is_whitespace(s.last()) {
        0
    } else {
        1 + spec_trail_ws(s.drop_last())
    }
}

/// `s` without leading and trailing white space (`str::trim`).
pub open spec fn spec_trim(s: Seq<char>) -> Seq<char> {
    let a = spec_lead_ws(s);
    let t = s.subrange(a, s.len() as int);
    t.subrange(0, t.len() - spec_trail_ws(t))
}

pub proof fn lemma_lead_ws(s: Seq<char>)
    ensures
        0 <= spec_lead_ws(s) <= s.len(),
    decreases s.len(),
{
    if s.len() > 0 && spec_is_whitespace(s[0]) {
        lemma_lead_ws(s.drop_first());
    }
}

pub proof fn lemma_trail_ws(s: Seq<char>)
    ensures
        0 <= spec_trail_ws(s) <= s.len(),
    decreases s.len(),
{
    if s.len() > 0 && spec_is_whitespace(s.last()) {
        lemma_trail_ws(s.drop_last());
    }
}

/// `v[from..to]` without leading and trailing white space.
pub fn trim_range(v: &[char], from: usize, to: usize) -> (out: Vec<char>)
    requires
        from <= to <= v@.len(),
    ensures
        out@ == spec_trim(v@.subrange(from as int, to as int)),
{
    let ghost s = v@.subrange(from as int, to as int);
    let mut a: usize = from;
    while a < to && is_whitespace(v[a])
        invariant
            from <= a <= to,
            to <= v@.len(),
            s == v@.subrange(from as int, to as int),
            spec_lead_ws(s) == (a - from) + spec_lead_ws(v@.subrange(a as int, to as int)),
        decreases to - a,
    {
        assert(v@.subrange(a as int, to as int).drop_first() =~= v@.subrange(a + 1, to as int));
        a = a + 1;
    }
    assert(spec_lead_ws(v@.subrange(a as int, to as int)) == 0);
    assert(s.subrange(a - from, s.len() as int) =~= v@.subrange(a as int, to as int));
    let ghost t = v@.subrange(a as int, to as int);
    let mut b: usize = to;
    while b > a && is_whitespace(v[b - 1])
        invariant
            a <= b <= to,
            to <= v@.len(),
            t == v@.subrange(a as int, to as int),
            spec_trail_ws(t) == (to - b) + spec_trail_ws(v@.subrange(a as int, b as int)),
        decreases b - a,
    {
        assert(v@.subrange(a as int, b as int).drop_last() =~= v@.subrange(a as int, b - 1));
        b = b - 1;
    }
    assert(spec_trail_ws(v@.subrange(a as int, b as int)) == 0);
    assert(t.subrange(0, t.len() - spec_trail_ws(t)) =~= v@.subrange(a as int, b as int));
    slice_to_vec(v, a, b)
}

} // verus!

verus! {

pub assume_specification[ String::push_str ](s: &mut String, string: &str)
    ensures
        final(s)@ == old(s)@ + string@,
;

/// Append the characters of `v` to `s`.
pub fn push_chars(s: &mut String, v: &[char])
    ensures
        final(s)@ == old(s)@ + v@,
{
    let ghost start = s@;
    let mut i: usize = 0;
    while i < v.len()
        invariant
            i <= v@.len(),
            s@ == start + v@.subrange(0, i as int),
        decreases v@.len() - i,
    {
        s.push(v[i]);
        i = i + 1;
        assert(s@ =~= start + v@.subrange(0, i as int));
    }
    assert(v@.subrange(0, v@.len() as int) =~= v@);
}

/// The concatenation of two character slices.
pub fn concat(a: &[char], b: &[char]) -> (out: Vec<char>)
    ensures
        out@ == a@ + b@,
{
    let mut out = slice_to_vec(a, 0, a.len());
    assert(a@.subrange(0, a@.len() as int) =~= a@);
    let mut i: usize = 0;
    while i < b.len()
        invariant
            i <= b@.len(),
            out@ == a@ + b@.subrange(0, i as int),
        decreases b@.len() - i,
    {
        out.push(b[i]);
        i = i + 1;
        assert(out@ =~= a@ + b@.subrange(0, i as int));
    }
    assert(b@.subrange(0, b@.len() as int) =~= b@);
    out
}

/// Law: the order of texts (tokens, burst numbers) is lexicographic: `a` comes before `b` exactly
/// when at the first position where they differ `a` has the smaller
/// character code, or `a` is a proper prefix of `b`.
pub proof fn lemma_lex_order_rule(a: Seq<char>, b: Seq<char>)
    ensures
        spec_lex_lt(a, b) <==> ((exists|i: int| #![trigger a[i], b[i]] 0 <= i < a.len() && i < b.len() && a.subrange(0, i) == b.subrange(0, i)
            && (a[i] as u32) < (b[i] as u32)) || (a.len() < b.len() && a == b.subrange(0, a.len() as int))),
    decreases a.len(),
{
    if a.len() > 0 && b.len() > 0 && a[0] == b[0] {
        lemma_lex_order_rule(a.drop_first(), b.drop_first());
        let a1 = a.drop_first();
        let b1 = b.drop_first();
        if exists|i: int| #![trigger a1[i], b1[i]] 0 <= i < a1.len() && i < b1.len() && a1.subrange(0, i) == b1.subrange(0, i) && (a1[i] as u32) < (b1[i] as u32) {
            let i = choose|i: int| #![trigger a1[i], b1[i]] 0 <= i < a1.len() && i < b1.len() && a1.subrange(0, i) == b1.subrange(0, i) && (a1[i] as u32) < (b1[i] as u32);
            assert(a.subrange(0, i + 1) =~= seq![a[0]] + a1.subrange(0, i));
            assert(b.subrange(0, i + 1) =~= seq![b[0]] + b1.subrange(0, i));
            assert(a[i + 1] == a1[i] && b[i + 1] == b1[i]);
        }
        if exists|i: int| #![trigger a[i], b[i]] 0 <= i < a.len() && i < b.len() && a.subrange(0, i) == b.subrange(0, i) && (a[i] as u32) < (b[i] as u32) {
            let i = choose|i: int| #![trigger a[i], b[i]] 0 <= i < a.len() && i < b.len() && a.subrange(0, i) == b.subrange(0, i) && (a[i] as u32) < (b[i] as u32);
            assert(i > 0);
            assert(a1.subrange(0, i - 1) =~= a.subrange(0, i).drop_first());
            assert(b1.subrange(0, i - 1) =~= b.subrange(0, i).drop_first());
            assert(a1[i - 1] == a[i] && b1[i - 1] == b[i]);
        }
        if a1.len() < b1.len() && a1 == b1.subrange(0, a1.len() as int) {
            assert(a =~= seq![a[0]] + a1);
            assert(b.subrange(0, a.len() as int) =~= seq![b[0]] + b1.subrange(0, a1.len() as int));
            assert(a =~= b.subrange(0, a.len() as int));
        }
        if a.len() < b.len() && a == b.subrange(0, a.len() as int) {
            assert(a1 =~= b1.subrange(0, a1.len() as int));
        }
    } else if a.len() > 0 && b.len() > 0 {
        assert(a.subrange(0, 0) =~= b.subrange(0, 0));
        if a.len() < b.len() && a == b.subrange(0, a.len() as int) {
            assert(a[0] == b.subrange(0, a.len() as int)[0]);
        }
        if exists|i: int| #![trigger a[i], b[i]] 0 <= i < a.len() && i < b.len() && a.subrange(0, i) == b.subrange(0, i) && (a[i] as u32) < (b[i] as u32) {
            let i = choose|i: int| #![trigger a[i], b[i]] 0 <= i < a.len() && i < b.len() && a.subrange(0, i) == b.subrange(0, i) && (a[i] as u32) < (b[i] as u32);
            if i > 0 {
                assert(a.subrange(0, i)[0] == b.subrange(0, i)[0]);
            }
        }
    } else if a.len() == 0 {
        assert(a =~= b.subrange(0, 0));
    }
}

} // verus!
