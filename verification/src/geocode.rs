//! Offline reverse geocoding: the handle on the dataset of named places.
//!
//! The dataset is a bundled table of world cities; the distance computation
//! that picks the nearest one works on floating-point coordinates and stands
//! outside this library.

use crate::error::Error;
use crate::text::{chars_eq, chars_of, push_chars, string_of};
use vstd::prelude::*;

verus! {

/// A named place returned by the reverse lookup.
#[derive(Debug, Clone, PartialEq, Eq)]
pub struct NamedPlace {
    pub city: String,
    pub region: String,
    pub country: String,
}

/// Handle on the active dataset: for now always the bundled table.
#[derive(Debug, Clone, Copy, PartialEq, Eq)]
pub struct Geocoder;

impl Geocoder {
    /// The geocoder over the bundled dataset.
    pub fn new() -> (g: Self)
        ensures
            g == Geocoder,
    {
        Geocoder
    }

    /// The geocoder over a dataset on disk. Loading a larger dataset is not
    /// supported yet: every path gives the bundled dataset, so callers can
    /// offer the setting without it being a hard error.
    pub fn load_from_path(path: &str) -> (r: Result<Self, Error>)
        ensures
            r == Ok::<Geocoder, Error>(Geocoder),
    {
        Ok(Geocoder)
    }
}

// ----------------------------------------------------------------- places

/// One place of the places view: the assets reverse-geocoded to one city.
#[derive(Debug, Clone, PartialEq, Eq)]
pub struct PlaceGroup {
    /// `country:city`.
    pub place_id: String,
    pub city: String,
    pub region: String,
    pub country: String,
    /// The assets of the place, in the order of the rows.
    pub asset_ids: Vec<i64>,
    /// At most six of them, spread evenly over the list.
    pub sample_asset_ids: Vec<i64>,
}

/// The key a place is grouped under: `country:city`.
pub open spec fn spec_place_key(p: NamedPlace) -> Seq<char> {
    p.country@ + ":"@ + p.city@
}

/// Whether a row `(asset_id, day, place)` takes part: it has a place, and
/// its day is within the bounds that are set.
pub open spec fn spec_keeps(r: (i64, i64, Option<NamedPlace>), after: Option<i64>, before: Option<i64>) -> bool {
    &&& r.2 is Some
    &&& (after matches Some(a) ==> r.1 >= a)
    &&& (before matches Some(b) ==> r.1 <= b)
}

/// Whether row `r` takes part and belongs to the place `key`.
pub open spec fn spec_in_place(r: (i64, i64, Option<NamedPlace>), after: Option<i64>, before: Option<i64>, key: Seq<char>) -> bool {
    spec_keeps(r, after, before) && spec_place_key(r.2->0) == key
}

/// The keys of the places, in the order they first appear.
pub open spec fn spec_place_keys(rows: Seq<(i64, i64, Option<NamedPlace>)>, after: Option<i64>, before: Option<i64>) -> Seq<Seq<char>>
    decreases rows.len(),
{
    if rows.len() == 0 {
        seq![]
    } else {
        let ks = spec_place_keys(rows.drop_last(), after, before);
        let r = rows.last();
        if spec_keeps(r, after, before) && !ks.contains(spec_place_key(r.2->0)) {
            ks.push(spec_place_key(r.2->0))
        } else {
            ks
        }
    }
}

/// The asset ids of the place `key`, in row order.
pub open spec fn spec_place_ids(rows: Seq<(i64, i64, Option<NamedPlace>)>, after: Option<i64>, before: Option<i64>, key: Seq<char>) -> Seq<i64>
    decreases rows.len(),
{
    if rows.len() == 0 {
        seq![]
    } else {
        let ids = spec_place_ids(rows.drop_last(), after, before, key);
        if spec_in_place(rows.last(), after, before, key) {
            ids.push(rows.last().0)
        } else {
            ids
        }
    }
}

/// The place of the first row of the place `key`.
pub open spec fn spec_first_place(rows: Seq<(i64, i64, Option<NamedPlace>)>, after: Option<i64>, before: Option<i64>, key: Seq<char>) -> Option<NamedPlace>
    decreases rows.len(),
{
    if rows.len() == 0 {
        None
    } else {
        match spec_first_place(rows.drop_last(), after, before, key) {
            Some(p) => Some(p),
            None => if spec_in_place(rows.last(), after, before, key) {
                rows.last().2
            } else {
                None
            },
        }
    }
}

/// The texts of a place, if any.
pub open spec fn spec_place_view(p: Option<NamedPlace>) -> Option<(Seq<char>, Seq<char>, Seq<char>)> {
    match p {
        Some(q) => Some((q.city@, q.region@, q.country@)),
        None => None,
    }
}

/// The step of the sample: one sixth of the list, at least 1.
pub open spec fn spec_stride(n: int) -> int {
    let q = (if n > 6 { n } else { 6 }) / 6;
    if q > 1 { q } else { 1 }
}

/// Every `stride`-th id from the first, at most six.
pub open spec fn spec_sample(ids: Seq<i64>) -> Seq<i64> {
    let st = spec_stride(ids.len() as int);
    let n = (ids.len() + st - 1) / st;
    Seq::new((if n > 6 { 6 } else { n }) as nat, |k: int| ids[k * st])
}

/// Whether `g` is the group of its place among `rows`.
pub open spec fn spec_group_ok(g: PlaceGroup, rows: Seq<(i64, i64, Option<NamedPlace>)>, after: Option<i64>, before: Option<i64>) -> bool {
    let key = g.place_id@;
    &&& spec_place_keys(rows, after, before).contains(key)
    &&& g.asset_ids@ == spec_place_ids(rows, after, before, key)
    &&& spec_first_place(rows, after, before, key) matches Some(p) && g.city@ == p.city@
        && g.region@ == p.region@ && g.country@ == p.country@
    &&& g.sample_asset_ids@ == spec_sample(g.asset_ids@)
}

/// Whether `v` is the places view of `rows`: one group per place, each
/// with its assets and sample, the largest places first.
pub open spec fn spec_places_ok(rows: Seq<(i64, i64, Option<NamedPlace>)>, after: Option<i64>, before: Option<i64>, v: Seq<PlaceGroup>) -> bool {
    &&& v.len() == spec_place_keys(rows, after, before).len()
    &&& forall|i: int| 0 <= i < v.len() ==> spec_group_ok(#[trigger] v[i], rows, after, before)
    &&& forall|i: int, j: int| 0 <= i < j < v.len() ==> v[i].place_id@ != v[j].place_id@
    &&& forall|i: int, j: int| 0 <= i < j < v.len() ==> v[i].asset_ids@.len() >= v[j].asset_ids@.len()
}

fn copy_string(s: &String) -> (t: String)
    ensures
        t@ == s@,
{
    string_of(&chars_of(s.as_str()))
}

fn place_key(p: &NamedPlace) -> (k: String)
    ensures
        k@ == spec_place_key(*p),
{
    let mut k = copy_string(&p.country);
    k.push_str(":");
    push_chars(&mut k, &chars_of(p.city.as_str()));
    proof { reveal_strlit(":"); }
    k
}

fn keeps(r: &(i64, i64, Option<NamedPlace>), after: Option<i64>, before: Option<i64>) -> (b: bool)
    ensures
        b == spec_keeps(*r, after, before),
{
    if r.2.is_none() {
        return false;
    }
    let a_ok = match after {
        Some(a) => r.1 >= a,
        None => true,
    };
    let b_ok = match before {
        Some(b) => r.1 <= b,
        None => true,
    };
    a_ok && b_ok
}

fn find_key(keys: &Vec<String>, k: &String) -> (r: Option<usize>)
    ensures
        match r {
            Some(i) => i < keys@.len() && keys@[i as int]@ == k@,
            None => forall|i: int| 0 <= i < keys@.len() ==> keys@[i]@ != k@,
        },
{
    let mut i: usize = 0;
    while i < keys.len()
        invariant
            i <= keys@.len(),
            forall|j: int| 0 <= j < i ==> keys@[j]@ != k@,
        decreases keys@.len() - i,
    {
        if chars_eq(&chars_of(keys[i].as_str()), &chars_of(k.as_str())) {
            return Some(i);
        }
        i = i + 1;
    }
    None
}

proof fn lemma_keys_contains(keys: Seq<String>, ks: Seq<Seq<char>>, k: Seq<char>)
    requires
        keys.len() == ks.len(),
        forall|j: int| 0 <= j < keys.len() ==> keys[j]@ == ks[j],
    ensures
        ks.contains(k) <==> exists|j: int| 0 <= j < keys.len() && keys[j]@ == k,
{
    if ks.contains(k) {
        let j = choose|j: int| 0 <= j < ks.len() && ks[j] == k;
        assert(keys[j]@ == k);
    }
    if exists|j: int| 0 <= j < keys.len() && keys[j]@ == k {
        let j = choose|j: int| 0 <= j < keys.len() && keys[j]@ == k;
        assert(ks[j] == k);
    }
}

/// The place keys of `rows`, in the order they first appear.
fn place_keys(rows: &[(i64, i64, Option<NamedPlace>)], after: Option<i64>, before: Option<i64>) -> (keys: Vec<String>)
    ensures
        keys@.len() == spec_place_keys(rows@, after, before).len(),
        forall|j: int| 0 <= j < keys@.len() ==> keys@[j]@ == spec_place_keys(rows@, after, before)[j],
{
    let mut keys: Vec<String> = Vec::new();
    let mut i: usize = 0;
    while i < rows.len()
        invariant
            i <= rows@.len(),
            keys@.len() == spec_place_keys(rows@.subrange(0, i as int), after, before).len(),
            forall|j: int| 0 <= j < keys@.len() ==> keys@[j]@ == spec_place_keys(rows@.subrange(0, i as int), after, before)[j],
        decreases rows@.len() - i,
    {
        let ghost pre = rows@.subrange(0, i as int);
        let ghost ks = spec_place_keys(pre, after, before);
        assert(rows@.subrange(0, i + 1).drop_last() =~= pre);
        if keeps(&rows[i], after, before) {
            let p = match &rows[i].2 {
                Some(p) => p,
                None => { return keys; },
            };
            let k = place_key(p);
            proof { lemma_keys_contains(keys@, ks, k@); }
            match find_key(&keys, &k) {
                Some(_) => {},
                None => {
                    keys.push(k);
                },
            }
        }
        i = i + 1;
    }
    assert(rows@.subrange(0, rows@.len() as int) =~= rows@);
    keys
}

/// The assets and the first place of the place `key`.
fn place_members(rows: &[(i64, i64, Option<NamedPlace>)], after: Option<i64>, before: Option<i64>, key: &String) -> (r: (Vec<i64>, Option<NamedPlace>))
    ensures
        r.0@ == spec_place_ids(rows@, after, before, key@),
        spec_place_view(r.1) == spec_place_view(spec_first_place(rows@, after, before, key@)),
{
    let mut ids: Vec<i64> = Vec::new();
    let mut first: Option<NamedPlace> = None;
    let mut i: usize = 0;
    while i < rows.len()
        invariant
            i <= rows@.len(),
            ids@ == spec_place_ids(rows@.subrange(0, i as int), after, before, key@),
            spec_place_view(first) == spec_place_view(spec_first_place(rows@.subrange(0, i as int), after, before, key@)),
        decreases rows@.len() - i,
    {
        let ghost pre = rows@.subrange(0, i as int);
        assert(rows@.subrange(0, i + 1).drop_last() =~= pre);
        if keeps(&rows[i], after, before) {
            match &rows[i].2 {
                Some(p) => {
                    let k = place_key(p);
                    if chars_eq(&chars_of(k.as_str()), &chars_of(key.as_str())) {
                        ids.push(rows[i].0);
                        if first.is_none() {
                            first = Some(NamedPlace {
                                city: copy_string(&p.city),
                                region: copy_string(&p.region),
                                country: copy_string(&p.country),
                            });
                        }
                    }
                },
                None => {},
            }
        }
        i = i + 1;
    }
    assert(rows@.subrange(0, rows@.len() as int) =~= rows@);
    (ids, first)
}

proof fn lemma_keys_distinct(rows: Seq<(i64, i64, Option<NamedPlace>)>, after: Option<i64>, before: Option<i64>)
    ensures
        forall|a: int, b: int| 0 <= a < b < spec_place_keys(rows, after, before).len()
            ==> spec_place_keys(rows, after, before)[a] != spec_place_keys(rows, after, before)[b],
    decreases rows.len(),
{
    if rows.len() > 0 {
        lemma_keys_distinct(rows.drop_last(), after, before);
        let ks = spec_place_keys(rows.drop_last(), after, before);
        assert forall|a: int, b: int| 0 <= a < b < spec_place_keys(rows, after, before).len()
            implies spec_place_keys(rows, after, before)[a] != spec_place_keys(rows, after, before)[b] by {
            if b == ks.len() {
                assert(ks.contains(ks[a]));
            }
        }
    }
}

proof fn lemma_key_has_place(rows: Seq<(i64, i64, Option<NamedPlace>)>, after: Option<i64>, before: Option<i64>, key: Seq<char>)
    requires
        spec_place_keys(rows, after, before).contains(key),
    ensures
        spec_first_place(rows, after, before, key) is Some,
    decreases rows.len(),
{
    if rows.len() > 0 {
        let ks = spec_place_keys(rows.drop_last(), after, before);
        if ks.contains(key) {
            lemma_key_has_place(rows.drop_last(), after, before, key);
        } else {
            let j = choose|j: int| 0 <= j < spec_place_keys(rows, after, before).len()
                && spec_place_keys(rows, after, before)[j] == key;
            if j < ks.len() {
                assert(ks.contains(key));
            }
        }
    }
}

proof fn lemma_ceil_div(n: int, st: int, k: int)
    requires
        st >= 1,
        n >= 0,
        k >= 0,
        n <= k * st,
        k > 0 ==> (k - 1) * st < n,
    ensures
        (n + st - 1) / st == k,
{
    let x = n + st - 1;
    vstd::arithmetic::div_mod::lemma_fundamental_div_mod(x, st);
    let q = x / st;
    let r = x % st;
    assert(k * st <= x) by (nonlinear_arith)
        requires k >= 0, n >= 0, st >= 1, k > 0 ==> (k - 1) * st < n, x == n + st - 1;
    assert(x < (k + 1) * st) by (nonlinear_arith)
        requires n <= k * st, x == n + st - 1;
    assert(q == k) by (nonlinear_arith)
        requires x == st * q + r, 0 <= r < st, k * st <= x, x < (k + 1) * st, st >= 1;
}

proof fn lemma_ceil_at_least_six(n: int, st: int)
    requires
        st >= 1,
        5 * st < n,
    ensures
        (n + st - 1) / st >= 6,
{
    let x = n + st - 1;
    vstd::arithmetic::div_mod::lemma_fundamental_div_mod(x, st);
    let q = x / st;
    let r = x % st;
    assert(q >= 6) by (nonlinear_arith)
        requires x == st * q + r, 0 <= r < st, x >= 6 * st, st >= 1;
}

/// Every `stride`-th id from the first, at most six.
fn sample_of(ids: &Vec<i64>) -> (s: Vec<i64>)
    ensures
        s@ == spec_sample(ids@),
{
    let n = ids.len();
    let m: usize = if n > 6 { n } else { 6 };
    let q: usize = m / 6;
    let st: usize = if q > 1 { q } else { 1 };
    assert(st == spec_stride(n as int));
    assert(6 * st <= m);
    let mut s: Vec<i64> = Vec::new();
    let mut k: usize = 0;
    let mut idx: usize = 0;
    while k < 6 && idx < n
        invariant
            n == ids@.len(),
            st >= 1,
            6 * st <= m,
            m >= n,
            k <= 6,
            idx == k * st,
            s@.len() == k,
            forall|t: int| 0 <= t < k ==> s@[t] == ids@[t * st],
            k > 0 ==> (k - 1) * st < n,
        decreases 6 - k,
    {
        s.push(ids[idx]);
        assert((k + 1) * st <= 6 * st) by (nonlinear_arith)
            requires k < 6, st >= 1;
        assert((k + 1) * st == k * st + st) by (nonlinear_arith);
        idx = idx + st;
        k = k + 1;
    }
    proof {
        if idx >= n {
            lemma_ceil_div(n as int, st as int, k as int);
        } else {
            assert(5 * st < n) by (nonlinear_arith)
                requires k == 6, (k - 1) * st < n;
            lemma_ceil_at_least_six(n as int, st as int);
        }
    }
    assert(s@ =~= spec_sample(ids@));
    s
}

/// The places view of geotagged rows `(asset_id, day, place)`: the rows
/// with a place and a day within the bounds that are set, grouped by
/// `country:city`, each group with its assets in row order and a sample of
/// at most six of them taken by an even stride, the places with the most
/// assets first.
pub fn group_places(rows: &[(i64, i64, Option<NamedPlace>)], after_day: Option<i64>, before_day: Option<i64>) -> (v: Vec<PlaceGroup>)
    ensures
        spec_places_ok(rows@, after_day, before_day, v@),
{
    let keys = place_keys(rows, after_day, before_day);
    let ghost ks = spec_place_keys(rows@, after_day, before_day);
    proof { lemma_keys_distinct(rows@, after_day, before_day); }
    let mut out: Vec<PlaceGroup> = Vec::new();
    let mut j: usize = 0;
    while j < keys.len()
        invariant
            j <= keys@.len(),
            keys@.len() == ks.len(),
            ks == spec_place_keys(rows@, after_day, before_day),
            forall|a: int| 0 <= a < keys@.len() ==> keys@[a]@ == ks[a],
            forall|a: int, b: int| 0 <= a < b < ks.len() ==> ks[a] != ks[b],
            out@.len() == j,
            forall|a: int| 0 <= a < out@.len() ==> spec_group_ok(#[trigger] out@[a], rows@, after_day, before_day),
            forall|a: int| 0 <= a < out@.len() ==> exists|t: int| 0 <= t < j && (#[trigger] out@[a]).place_id@ == ks[t],
            forall|a: int, b: int| 0 <= a < b < out@.len() ==> out@[a].place_id@ != out@[b].place_id@,
            forall|a: int, b: int| 0 <= a < b < out@.len() ==> out@[a].asset_ids@.len() >= out@[b].asset_ids@.len(),
        decreases keys@.len() - j,
    {
        let key = &keys[j];
        assert(ks.contains(key@)) by { assert(ks[j as int] == key@); }
        proof { lemma_key_has_place(rows@, after_day, before_day, key@); }
        let (ids, first) = place_members(rows, after_day, before_day, key);
        let place = match first {
            Some(p) => p,
            None => { return out; },
        };
        let sample = sample_of(&ids);
        let g = PlaceGroup {
            place_id: copy_string(key),
            city: place.city,
            region: place.region,
            country: place.country,
            asset_ids: ids,
            sample_asset_ids: sample,
        };
        assert(spec_group_ok(g, rows@, after_day, before_day));
        let mut pos: usize = 0;
        while pos < out.len() && out[pos].asset_ids.len() >= g.asset_ids.len()
            invariant
                pos <= out@.len(),
                forall|a: int| 0 <= a < pos ==> out@[a].asset_ids@.len() >= g.asset_ids@.len(),
            decreases out@.len() - pos,
        {
            pos = pos + 1;
        }
        let ghost old_out = out@;
        assert forall|a: int| 0 <= a < old_out.len() implies old_out[a].place_id@ != g.place_id@ by {
            let t = choose|t: int| 0 <= t < j && old_out[a].place_id@ == ks[t];
            assert(ks[t] != ks[j as int]);
        }
        out.insert(pos, g);
        assert forall|a: int| 0 <= a < out@.len() implies exists|t: int| 0 <= t < j + 1 && (#[trigger] out@[a]).place_id@ == ks[t] by {
            if a < pos {
                assert(out@[a] == old_out[a]);
            } else if a == pos {
                assert(out@[a].place_id@ == ks[j as int]);
            } else {
                assert(out@[a] == old_out[a - 1]);
            }
        }
        assert forall|a: int, b: int| 0 <= a < b < out@.len() implies out@[a].asset_ids@.len() >= out@[b].asset_ids@.len() by {
            if b == pos {
            } else if a == pos {
                assert(out@[b] == old_out[b - 1]);
                if pos < old_out.len() {
                    assert(old_out[pos as int].asset_ids@.len() >= old_out[b - 1].asset_ids@.len());
                }
            } else {
            }
        }
        assert forall|a: int, b: int| 0 <= a < b < out@.len() implies out@[a].place_id@ != out@[b].place_id@ by {
        }
        j = j + 1;
    }
    out
}


proof fn lemma_first_place_key(rows: Seq<(i64, i64, Option<NamedPlace>)>, after: Option<i64>, before: Option<i64>, key: Seq<char>)
    ensures
        spec_first_place(rows, after, before, key) matches Some(p) ==> spec_place_key(p) == key,
    decreases rows.len(),
{
    if rows.len() > 0 {
        lemma_first_place_key(rows.drop_last(), after, before, key);
    }
}

proof fn lemma_place_ids_from(rows: Seq<(i64, i64, Option<NamedPlace>)>, after: Option<i64>, before: Option<i64>, key: Seq<char>)
    ensures
        spec_place_keys(rows, after, before).contains(key) ==> spec_place_ids(rows, after, before, key).len() > 0,
        forall|k: int| 0 <= k < spec_place_ids(rows, after, before, key).len() ==> exists|r: int|
            0 <= r < rows.len() && rows[r].0 == #[trigger] spec_place_ids(rows, after, before, key)[k]
                && spec_in_place(rows[r], after, before, key),
    decreases rows.len(),
{
    if rows.len() > 0 {
        let pre = rows.drop_last();
        lemma_place_ids_from(pre, after, before, key);
        let rest = spec_place_ids(pre, after, before, key);
        let all = spec_place_ids(rows, after, before, key);
        if spec_place_keys(rows, after, before).contains(key) && !spec_place_keys(pre, after, before).contains(key) {
            let j = choose|j: int| 0 <= j < spec_place_keys(rows, after, before).len()
                && spec_place_keys(rows, after, before)[j] == key;
            if j < spec_place_keys(pre, after, before).len() {
                assert(spec_place_keys(pre, after, before).contains(key));
            }
        }
        assert forall|k: int| 0 <= k < all.len() implies exists|r: int|
            0 <= r < rows.len() && rows[r].0 == #[trigger] all[k] && spec_in_place(rows[r], after, before, key) by {
            if k < rest.len() {
                assert(all[k] == rest[k]);
                let r = choose|r: int| 0 <= r < pre.len() && pre[r].0 == rest[k] && spec_in_place(pre[r], after, before, key);
                assert(rows[r] == pre[r]);
            } else {
                assert(rows[rows.len() - 1] == rows.last());
            }
        }
    }
}

proof fn lemma_sample_shape(ids: Seq<i64>)
    requires
        ids.len() > 0,
    ensures
        1 <= spec_sample(ids).len() <= 6,
        spec_sample(ids).len() <= ids.len(),
        forall|k: int| 0 <= k < spec_sample(ids).len() ==> ids.contains(#[trigger] spec_sample(ids)[k]),
{
    let n = ids.len() as int;
    let st = spec_stride(n);
    let x = n + st - 1;
    vstd::arithmetic::div_mod::lemma_fundamental_div_mod(x, st);
    let q = x / st;
    let r = x % st;
    assert(q >= 1) by (nonlinear_arith)
        requires x == st * q + r, 0 <= r < st, n >= 1, x == n + st - 1, st >= 1;
    assert(q <= n) by (nonlinear_arith)
        requires x == st * q + r, 0 <= r < st, n >= 1, x == n + st - 1, st >= 1;
    assert forall|k: int| 0 <= k < spec_sample(ids).len() implies ids.contains(#[trigger] spec_sample(ids)[k]) by {
        assert(k < q);
        assert(k * st < n) by (nonlinear_arith)
            requires k < q, x == st * q + r, 0 <= r < st, x == n + st - 1, st >= 1, k >= 0;
        assert(k * st >= 0) by (nonlinear_arith)
            requires k >= 0, st >= 1;
        assert(spec_sample(ids)[k] == ids[k * st]);
    }
}

/// Law: in the places view, each place is named `country:city` after its
/// own country and city, has at least one asset, and shows between one and
/// six of its assets, no more than it has; every asset of a place comes
/// from a row of that place whose day lies within the bounds that are set;
/// no two places share a name; and the places with more assets come first.
pub proof fn lemma_places_view(rows: Seq<(i64, i64, Option<NamedPlace>)>, after: Option<i64>, before: Option<i64>, v: Seq<PlaceGroup>)
    requires
        spec_places_ok(rows, after, before, v),
    ensures
        forall|i: int| 0 <= i < v.len() ==> (#[trigger] v[i]).place_id@ == v[i].country@ + ":"@ + v[i].city@,
        forall|i: int| 0 <= i < v.len() ==> (#[trigger] v[i]).asset_ids@.len() >= 1,
        forall|i: int| 0 <= i < v.len() ==> 1 <= (#[trigger] v[i]).sample_asset_ids@.len() <= 6
            && v[i].sample_asset_ids@.len() <= v[i].asset_ids@.len(),
        forall|i: int, k: int| 0 <= i < v.len() && 0 <= k < v[i].sample_asset_ids@.len() ==> v[i].asset_ids@.contains(
            #[trigger] v[i].sample_asset_ids@[k],
        ),
        forall|i: int, k: int| 0 <= i < v.len() && 0 <= k < v[i].asset_ids@.len() ==> exists|r: int|
            0 <= r < rows.len() && rows[r].0 == #[trigger] v[i].asset_ids@[k] && spec_keeps(rows[r], after, before)
                && spec_place_key(rows[r].2->0) == v[i].place_id@,
        forall|i: int, k: int| #![trigger v[i].asset_ids@[k]] 0 <= i < v.len() && 0 <= k < v[i].asset_ids@.len() ==> exists|r: int|
            0 <= r < rows.len() && rows[r].0 == v[i].asset_ids@[k] && rows[r].2 is Some && (after is Some
            ==> rows[r].1 >= after->0) && (before is Some ==> rows[r].1 <= before->0) && rows[r].2->0.country@ + ":"@
            + rows[r].2->0.city@ == v[i].place_id@,
        forall|i: int, j: int| 0 <= i < j < v.len() ==> v[i].place_id@ != v[j].place_id@,
        forall|i: int, j: int| 0 <= i < j < v.len() ==> v[i].asset_ids@.len() >= v[j].asset_ids@.len(),
{
    assert forall|i: int| 0 <= i < v.len() implies {
        &&& (#[trigger] v[i]).place_id@ == v[i].country@ + ":"@ + v[i].city@
        &&& v[i].asset_ids@.len() >= 1
        &&& 1 <= v[i].sample_asset_ids@.len() <= 6 && v[i].sample_asset_ids@.len() <= v[i].asset_ids@.len()
        &&& forall|k: int| 0 <= k < v[i].sample_asset_ids@.len() ==> v[i].asset_ids@.contains(
            #[trigger] v[i].sample_asset_ids@[k],
        )
        &&& forall|k: int| 0 <= k < v[i].asset_ids@.len() ==> exists|r: int|
            0 <= r < rows.len() && rows[r].0 == #[trigger] v[i].asset_ids@[k] && spec_keeps(rows[r], after, before)
                && spec_place_key(rows[r].2->0) == v[i].place_id@
    } by {
        let g = v[i];
        assert(spec_group_ok(g, rows, after, before));
        let key = g.place_id@;
        lemma_first_place_key(rows, after, before, key);
        lemma_place_ids_from(rows, after, before, key);
        lemma_sample_shape(g.asset_ids@);
    }
    assert forall|i: int, k: int| #![trigger v[i].asset_ids@[k]] 0 <= i < v.len() && 0 <= k < v[i].asset_ids@.len()
        implies exists|r: int| 0 <= r < rows.len() && rows[r].0 == v[i].asset_ids@[k] && rows[r].2 is Some && (after
        is Some ==> rows[r].1 >= after->0) && (before is Some ==> rows[r].1 <= before->0) && rows[r].2->0.country@
        + ":"@ + rows[r].2->0.city@ == v[i].place_id@ by {
        let g = v[i];
        assert(spec_group_ok(g, rows, after, before));
        lemma_place_ids_from(rows, after, before, g.place_id@);
        let r = choose|r: int| 0 <= r < rows.len() && rows[r].0 == #[trigger] spec_place_ids(rows, after, before, g.place_id@)[k]
            && spec_in_place(rows[r], after, before, g.place_id@);
    }
}

/// Law: a place shows every stride-th of its assets from the first, at most
/// six, the stride being a sixth of the asset count (at least one).
pub proof fn lemma_sample_rule(ids: Seq<i64>, k: int)
    ensures
        spec_stride(ids.len() as int) == if ids.len() > 6 { ids.len() as int / 6 } else { 1 },
        0 <= k < spec_sample(ids).len() ==> spec_sample(ids)[k] == ids[k * (if ids.len() > 6 {
            ids.len() as int / 6
        } else {
            1
        })],
        spec_sample(ids).len() <= 6,
{
    if ids.len() > 6 {
        assert(ids.len() as int / 6 >= 1);
    }
}

proof fn lemma_kept_row_listed(rows: Seq<(i64, i64, Option<NamedPlace>)>, after: Option<i64>, before: Option<i64>, r: int)
    requires
        0 <= r < rows.len(),
        spec_keeps(rows[r], after, before),
    ensures
        spec_place_keys(rows, after, before).contains(spec_place_key(rows[r].2->0)),
        spec_place_ids(rows, after, before, spec_place_key(rows[r].2->0)).contains(rows[r].0),
    decreases rows.len(),
{
    let key = spec_place_key(rows[r].2->0);
    let pre = rows.drop_last();
    let ks = spec_place_keys(pre, after, before);
    let ids = spec_place_ids(pre, after, before, key);
    if r < rows.len() - 1 {
        assert(pre[r] == rows[r]);
        lemma_kept_row_listed(pre, after, before, r);
        let j = choose|j: int| 0 <= j < ks.len() && ks[j] == key;
        let all = spec_place_keys(rows, after, before);
        if spec_keeps(rows.last(), after, before) && !ks.contains(spec_place_key(rows.last().2->0)) {
            assert(all == ks.push(spec_place_key(rows.last().2->0)));
            assert(all[j] == ks[j]);
        } else {
            assert(all == ks);
        }
        let m = choose|m: int| 0 <= m < ids.len() && ids[m] == rows[r].0;
        let allids = spec_place_ids(rows, after, before, key);
        if spec_in_place(rows.last(), after, before, key) {
            assert(allids == ids.push(rows.last().0));
            assert(allids[m] == ids[m]);
        } else {
            assert(allids == ids);
        }
    } else {
        assert(rows[r] == rows.last());
        let all = spec_place_keys(rows, after, before);
        if ks.contains(key) {
            assert(all == ks);
        } else {
            assert(all == ks.push(key));
            assert(all[ks.len() as int] == key);
        }
        let allids = spec_place_ids(rows, after, before, key);
        assert(allids == ids.push(rows.last().0));
        assert(allids[ids.len() as int] == rows[r].0);
    }
}

proof fn lemma_every_key_grouped(rows: Seq<(i64, i64, Option<NamedPlace>)>, after: Option<i64>, before: Option<i64>, v: Seq<PlaceGroup>, key: Seq<char>)
    requires
        spec_places_ok(rows, after, before, v),
        spec_place_keys(rows, after, before).contains(key),
    ensures
        exists|i: int| 0 <= i < v.len() && (#[trigger] v[i]).place_id@ == key,
{
    let ks = spec_place_keys(rows, after, before);
    lemma_keys_distinct(rows, after, before);
    let vs = v.map_values(|g: PlaceGroup| g.place_id@);
    if !(exists|i: int| 0 <= i < v.len() && (#[trigger] v[i]).place_id@ == key) {
        assert(ks.no_duplicates());
        assert(vs.no_duplicates()) by {
            assert forall|a: int, b: int| 0 <= a < vs.len() && 0 <= b < vs.len() && a != b implies vs[a] != vs[b] by {
                if a < b {
                    assert(v[a].place_id@ != v[b].place_id@);
                } else {
                    assert(v[b].place_id@ != v[a].place_id@);
                }
            }
        }
        ks.unique_seq_to_set();
        vs.unique_seq_to_set();
        let kset = ks.to_set();
        let vset = vs.to_set();
        assert(kset.contains(key));
        assert(vset.subset_of(kset.remove(key))) by {
            assert forall|x: Seq<char>| vset.contains(x) implies kset.remove(key).contains(x) by {
                let i = choose|i: int| 0 <= i < vs.len() && vs[i] == x;
                assert(spec_group_ok(v[i], rows, after, before));
                assert(vs[i] == v[i].place_id@);
            }
        }
        vstd::seq_lib::seq_to_set_is_finite(ks);
        vstd::set_lib::lemma_len_subset(vset, kset.remove(key));
        vstd::set::axiom_set_remove_len(kset, key);
        assert(false);
    }
}

/// Law: the places view misses no asset. Every row with a place whose day
/// lies within the bounds that are set is listed among the assets of the
/// place named `country:city` after that place.
pub proof fn lemma_places_complete(rows: Seq<(i64, i64, Option<NamedPlace>)>, after: Option<i64>, before: Option<i64>, v: Seq<PlaceGroup>, r: int)
    requires
        spec_places_ok(rows, after, before, v),
        0 <= r < rows.len(),
        rows[r].2 is Some,
        after is Some ==> rows[r].1 >= after->0,
        before is Some ==> rows[r].1 <= before->0,
    ensures
        exists|i: int| 0 <= i < v.len() && (#[trigger] v[i]).place_id@ == rows[r].2->0.country@ + ":"@
            + rows[r].2->0.city@ && v[i].asset_ids@.contains(rows[r].0),
{
    lemma_kept_row_listed(rows, after, before, r);
    let key = spec_place_key(rows[r].2->0);
    lemma_every_key_grouped(rows, after, before, v, key);
    let i = choose|i: int| 0 <= i < v.len() && (#[trigger] v[i]).place_id@ == key;
    assert(spec_group_ok(v[i], rows, after, before));
}

} // verus!
