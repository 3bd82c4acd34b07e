//! Google Takeout metadata: what of a Takeout JSON file becomes the XMP
//! sidecar of its photo. Reading the JSON and the floating-point position
//! stand outside this library.

use crate::analytics::smart_albums::{spec_timestamp_in_range, timestamp_checked, FIRST_TIMESTAMP, LAST_TIMESTAMP};
use crate::text::chars_of;
use vstd::prelude::*;

verus! {

/// The text fields of a Takeout JSON file.
#[derive(Debug, Clone, PartialEq, Eq)]
pub struct TakeoutMeta {
    pub title: Option<String>,
    pub description: Option<String>,
    /// `photoTakenTime.timestamp`: UNIX seconds, written as a string.
    pub timestamp: Option<String>,
    /// The `name` of each entry of `people`.
    pub people: Vec<Option<String>>,
}

/// What of a Takeout JSON file goes into the XMP sidecar, but the position.
#[derive(Debug, Clone, PartialEq, Eq)]
pub struct TakeoutFields {
    pub title: Option<String>,
    pub description: Option<String>,
    /// The capture time, UNIX seconds.
    pub date_created: Option<i64>,
    pub persons: Vec<String>,
    pub album: Option<String>,
}

/// The value of a run of decimal digits.
pub open spec fn spec_digits_value(s: Seq<char>) -> int
    decreases s.len(),
{
    if s.len() == 0 {
        0
    } else {
        spec_digits_value(s.drop_last()) * 10 + (s.last() as int - '0' as int)
    }
}

/// Whether every character of `s` is an ASCII digit.
pub open spec fn spec_all_digits(s: Seq<char>) -> bool {
    forall|i: int| 0 <= i < s.len() ==> '0' <= #[trigger] s[i] <= '9'
}

/// The `i64` that `str::parse` reads from `s`: an optional `+` or `-`, then
/// one or more ASCII digits, the value within the range of `i64`.
pub open spec fn spec_parse_i64(s: Seq<char>) -> Option<i64> {
    let neg = s.len() > 0 && s[0] == '-';
    let body = if s.len() > 0 && (s[0] == '-' || s[0] == '+') {
        s.drop_first()
    } else {
        s
    };
    let v = if neg {
        -spec_digits_value(body)
    } else {
        spec_digits_value(body)
    };
    if body.len() > 0 && spec_all_digits(body) && i64::MIN <= v <= i64::MAX {
        Some(v as i64)
    } else {
        None
    }
}

proof fn lemma_digits_grow(s: Seq<char>, k: int)
    requires
        spec_all_digits(s),
        0 <= k <= s.len(),
    ensures
        spec_digits_value(s) >= spec_digits_value(s.subrange(0, k)),
        spec_digits_value(s.subrange(0, k)) >= 0,
    decreases s.len(),
{
    if k < s.len() {
        let p = s.drop_last();
        assert(spec_all_digits(p)) by {
            assert forall|i: int| 0 <= i < p.len() implies '0' <= #[trigger] p[i] <= '9' by {
                assert(p[i] == s[i]);
            }
        }
        lemma_digits_grow(p, k);
        assert(p.subrange(0, k) =~= s.subrange(0, k));
        assert('0' <= s[s.len() - 1] <= '9');
    } else {
        assert(s.subrange(0, k) =~= s);
        if s.len() > 0 {
            let p = s.drop_last();
            assert(spec_all_digits(p)) by {
                assert forall|i: int| 0 <= i < p.len() implies '0' <= #[trigger] p[i] <= '9' by {
                    assert(p[i] == s[i]);
                }
            }
            lemma_digits_grow(p, p.len() as int);
            assert(p.subrange(0, p.len() as int) =~= p);
            assert('0' <= s[s.len() - 1] <= '9');
        }
    }
}

/// Read a decimal `i64` as `str::parse` does.
pub fn parse_i64(s: &str) -> (r: Option<i64>)
    ensures
        r == spec_parse_i64(s@),
{
    let c = chars_of(s);
    let n = c.len();
    let neg = n > 0 && c[0] == '-';
    let start: usize = if n > 0 && (c[0] == '-' || c[0] == '+') { 1 } else { 0 };
    let ghost body = if s@.len() > 0 && (s@[0] == '-' || s@[0] == '+') {
        s@.drop_first()
    } else {
        s@
    };
    assert(body =~= c@.subrange(start as int, n as int));
    if start == n {
        return None;
    }
    let mut acc: i128 = 0;
    let mut i: usize = start;
    while i < n
        invariant
            start <= i <= n,
            c@ == s@,
            n == c@.len(),
            body == c@.subrange(start as int, n as int),
            body == (if s@.len() > 0 && (s@[0] == '-' || s@[0] == '+') {
                s@.drop_first()
            } else {
                s@
            }),
            neg == (s@.len() > 0 && s@[0] == '-'),
            spec_all_digits(c@.subrange(start as int, i as int)),
            acc == spec_digits_value(c@.subrange(start as int, i as int)),
            0 <= acc <= 9223372036854775808,
        decreases n - i,
    {
        let d = c[i];
        let ghost pre = c@.subrange(start as int, i as int);
        let ghost next = c@.subrange(start as int, i + 1);
        assert(next.drop_last() =~= pre);
        if !('0' <= d && d <= '9') {
            assert(body[i - start] == d);
            assert(!spec_all_digits(body));
            return None;
        }
        assert(spec_all_digits(next)) by {
            assert forall|j: int| 0 <= j < next.len() implies '0' <= #[trigger] next[j] <= '9' by {
                if j < pre.len() {
                    assert(next[j] == pre[j]);
                }
            }
        }
        acc = acc * 10 + (d as u32 - '0' as u32) as i128;
        assert(next.last() == d);
        assert(acc == spec_digits_value(next));
        i = i + 1;
        if acc > 9223372036854775808 {
            proof {
                if spec_all_digits(body) {
                    lemma_digits_grow(body, (i - start) as int);
                    assert(body.subrange(0, (i - start) as int) =~= next);
                    assert(spec_digits_value(body) > 9223372036854775808);
                }
            }
            return None;
        }
    }
    assert(c@.subrange(start as int, n as int) =~= body);
    if neg {
        Some((0 - acc) as i64)
    } else if acc > 9223372036854775807 {
        None
    } else {
        Some(acc as i64)
    }
}

/// What of a Takeout JSON file goes into the XMP sidecar: the title and the
/// description as they are; the capture time where the timestamp reads as
/// an `i64` that chrono can represent; the named people, in order; no album.
pub open spec fn spec_takeout_ok(m: TakeoutMeta, f: TakeoutFields) -> bool {
    &&& f.title == m.title
    &&& f.description == m.description
    &&& f.date_created == match m.timestamp {
        Some(t) => match spec_parse_i64(t@) {
            Some(secs) => if spec_timestamp_in_range(secs) {
                Some(secs)
            } else {
                None
            },
            None => None,
        },
        None => None,
    }
    &&& f.persons@.map_values(|p: String| p@) == spec_names(m.people@)
    &&& f.album is None
}

/// The names that are given, in order.
pub open spec fn spec_names(people: Seq<Option<String>>) -> Seq<Seq<char>>
    decreases people.len(),
{
    if people.len() == 0 {
        seq![]
    } else {
        let rest = spec_names(people.drop_last());
        match people.last() {
            Some(n) => rest.push(n@),
            None => rest,
        }
    }
}

/// The sidecar fields of a Takeout JSON file, but the position.
pub fn takeout_fields(meta: TakeoutMeta) -> (f: TakeoutFields)
    ensures
        spec_takeout_ok(meta, f),
{
    let ghost m = meta;
    let date_created = match &meta.timestamp {
        Some(t) => match parse_i64(t.as_str()) {
            Some(secs) => timestamp_checked(secs),
            None => None,
        },
        None => None,
    };
    let mut persons: Vec<String> = Vec::new();
    let people = meta.people;
    let mut i: usize = 0;
    while i < people.len()
        invariant
            i <= people@.len(),
            people@ == m.people@,
            persons@.map_values(|p: String| p@) == spec_names(people@.subrange(0, i as int)),
        decreases people@.len() - i,
    {
        let ghost pre = people@.subrange(0, i as int);
        assert(people@.subrange(0, i + 1).drop_last() =~= pre);
        match &people[i] {
            Some(n) => {
                let ghost before = persons@.map_values(|p: String| p@);
                let t = n.clone();
                persons.push(t);
                assert(persons@.map_values(|p: String| p@) =~= before.push(t@));
            },
            None => {},
        }
        i = i + 1;
    }
    assert(people@.subrange(0, people@.len() as int) =~= people@);
    TakeoutFields {
        title: meta.title,
        description: meta.description,
        date_created,
        persons,
        album: None,
    }
}

/// Law: the decimal reading of a timestamp. Digits are read most
/// significant first, each worth its digit; a leading `-` negates, a
/// leading `+` is allowed; no digits, a stray character, or a value outside
/// `i64` gives nothing.
pub proof fn lemma_parse_i64_rule(s: Seq<char>, d: char)
    ensures
        spec_digits_value(seq![]) == 0,
        '0' <= d <= '9' ==> spec_digits_value(s.push(d)) == spec_digits_value(s) * 10 + (d as int - 48),
        spec_parse_i64(seq![]) is None,
        spec_parse_i64(seq!['-']) is None,
        spec_parse_i64(seq!['+']) is None,
        !('0' <= d <= '9') && d != '-' && d != '+' ==> spec_parse_i64(seq![d] + s) is None,
{
    assert(s.push(d).drop_last() =~= s);
    if !('0' <= d <= '9') && d != '-' && d != '+' {
        assert((seq![d] + s)[0] == d);
    }
}

/// Law: what a Takeout JSON file gives the sidecar: its title and
/// description unchanged, the named people in order (entries without a
/// name dropped), no album, and the capture time only where the timestamp
/// reads as a whole number of seconds that chrono can represent.
pub proof fn lemma_takeout_rule(m: TakeoutMeta, f: TakeoutFields, n: Option<String>)
    requires
        spec_takeout_ok(m, f),
    ensures
        f.title == m.title && f.description == m.description && f.album is None,
        m.timestamp is None ==> f.date_created is None,
        f.date_created matches Some(t) ==> m.timestamp is Some && spec_parse_i64(m.timestamp->0@) == Some(t)
            && FIRST_TIMESTAMP <= t <= LAST_TIMESTAMP,
        spec_names(seq![]) == Seq::<Seq<char>>::empty(),
        forall|people: Seq<Option<String>>| #![trigger spec_names(people.push(n))] spec_names(people.push(n)) == match n {
            Some(x) => spec_names(people).push(x@),
            None => spec_names(people),
        },
{
    assert forall|people: Seq<Option<String>>| #![trigger spec_names(people.push(n))] spec_names(people.push(n))
        == match n {
        Some(x) => spec_names(people).push(x@),
        None => spec_names(people),
    } by {
        assert(people.push(n).drop_last() =~= people);
    }
}

} // verus!
