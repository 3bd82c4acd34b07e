//! Trips: the clusters that trip detection finds, as sets of assets.
//!
//! Clustering itself runs DBSCAN on floating-point coordinates outside this
//! library and hands back one label per point (negative for noise). Here a
//! labelling becomes the trips: each cluster's members sorted, the days it
//! spans, a canonical id that is the same whenever the same assets cluster
//! together, and the order trips are listed in.

use crate::analytics::memories::{date_of_day, insert_ascending, spec_ascending, spec_date_of_day, spec_ordinal_of};
use crate::export::{push_decimal, push_int, spec_decimal, spec_int_text};
use crate::crypto::envelope::{row_associated_data, spec_le_bytes};
use vstd::prelude::*;
use vstd::seq_lib::to_multiset_build;
use vstd::seq_lib::to_multiset_contains;
use vstd::seq_lib::to_multiset_remove;

verus! {

/// Default minimum number of photos in a trip.
pub const DEFAULT_MIN_SAMPLES: usize = 5;

/// The members of one trip, before its centroid is averaged.
#[derive(Debug, Clone, PartialEq, Eq)]
pub struct TripGroup {
    /// The cluster label the clustering gave the trip's points.
    pub label: i32,
    /// Positions of the trip's points in the clustered input, ascending.
    pub indices: Vec<usize>,
    /// Member asset ids, ascending.
    pub member_asset_ids: Vec<i64>,
    /// BLAKE3 of the little-endian bytes of the sorted member ids.
    pub canonical_id: [u8; 32],
    /// First day covered.
    pub start_day: i64,
    /// Last day covered.
    pub end_day: i64,
}

/// The BLAKE3 hash of `data`.
pub uninterp spec fn spec_blake3_hash(data: Seq<u8>) -> Seq<u8>;

/// Calls `blake3::hash`. The contract claims only that the result is the
/// function of the bytes named `spec_blake3_hash`.
#[verifier::external_body]
pub(crate) fn blake3_hash(data: &[u8]) -> (h: [u8; 32])
    ensures
        h@ == spec_blake3_hash(data@),
{
    *blake3::hash(data).as_bytes()
}

/// The little-endian bytes of each id, laid end to end.
pub open spec fn spec_id_bytes(ids: Seq<i64>) -> Seq<u8>
    decreases ids.len(),
{
    if ids.len() == 0 {
        seq![]
    } else {
        spec_id_bytes(ids.drop_last()) + spec_le_bytes(ids.last() as u64)
    }
}

/// The positions of `labels` that carry `l`, ascending.
pub open spec fn spec_positions(labels: Seq<i32>, l: i32) -> Seq<usize>
    decreases labels.len(),
{
    if labels.len() == 0 {
        seq![]
    } else {
        let rest = spec_positions(labels.drop_last(), l);
        if labels.last() == l {
            rest.push((labels.len() - 1) as usize)
        } else {
            rest
        }
    }
}

/// The ids at the given positions.
pub open spec fn spec_ids_at(ids: Seq<i64>, pos: Seq<usize>) -> Seq<i64> {
    pos.map_values(|p: usize| ids[p as int])
}

/// The earliest of the days at the given positions (`i64::MAX` for none).
pub open spec fn spec_min_day(days: Seq<i64>, pos: Seq<usize>) -> i64
    decreases pos.len(),
{
    if pos.len() == 0 {
        i64::MAX
    } else {
        let m = spec_min_day(days, pos.drop_last());
        let d = days[pos.last() as int];
        if d < m {
            d
        } else {
            m
        }
    }
}

/// The latest of the days at the given positions (`i64::MIN` for none).
pub open spec fn spec_max_day(days: Seq<i64>, pos: Seq<usize>) -> i64
    decreases pos.len(),
{
    if pos.len() == 0 {
        i64::MIN
    } else {
        let m = spec_max_day(days, pos.drop_last());
        let d = days[pos.last() as int];
        if d > m {
            d
        } else {
            m
        }
    }
}

/// Whether `g` is the trip of the points labelled `g.label`.
pub open spec fn spec_trip_of(labels: Seq<i32>, ids: Seq<i64>, days: Seq<i64>, g: TripGroup) -> bool {
    &&& g.label >= 0
    &&& g.indices@ == spec_positions(labels, g.label)
    &&& g.indices@.len() > 0
    &&& spec_ascending(g.member_asset_ids@)
    &&& g.member_asset_ids@.to_multiset() == spec_ids_at(ids, g.indices@).to_multiset()
    &&& g.canonical_id@ == spec_blake3_hash(spec_id_bytes(g.member_asset_ids@))
    &&& g.start_day == spec_min_day(days, g.indices@)
    &&& g.end_day == spec_max_day(days, g.indices@)
}

/// The trip of the points at `indices`, all labelled `label`.
fn trip_group(label: i32, indices: Vec<usize>, ids: &[i64], days: &[i64]) -> (g: TripGroup)
    requires
        ids@.len() == days@.len(),
        forall|k: int| 0 <= k < indices@.len() ==> indices@[k] < ids@.len(),
    ensures
        g.label == label,
        g.indices@ == indices@,
        spec_ascending(g.member_asset_ids@),
        g.member_asset_ids@.to_multiset() == spec_ids_at(ids@, indices@).to_multiset(),
        g.canonical_id@ == spec_blake3_hash(spec_id_bytes(g.member_asset_ids@)),
        g.start_day == spec_min_day(days@, indices@),
        g.end_day == spec_max_day(days@, indices@),
{
    let mut members: Vec<i64> = Vec::new();
    let mut min_day: i64 = i64::MAX;
    let mut max_day: i64 = i64::MIN;
    let mut j: usize = 0;
    assert(members@ =~= spec_ids_at(ids@, indices@.subrange(0, 0)));
    while j < indices.len()
        invariant
            j <= indices@.len(),
            ids@.len() == days@.len(),
            forall|k: int| 0 <= k < indices@.len() ==> indices@[k] < ids@.len(),
            spec_ascending(members@),
            members@.to_multiset() == spec_ids_at(ids@, indices@.subrange(0, j as int)).to_multiset(),
            min_day == spec_min_day(days@, indices@.subrange(0, j as int)),
            max_day == spec_max_day(days@, indices@.subrange(0, j as int)),
        decreases indices@.len() - j,
    {
        let p = indices[j];
        let ghost pre = indices@.subrange(0, j as int);
        let ghost next = indices@.subrange(0, j + 1);
        assert(next.drop_last() =~= pre);
        assert(next.last() == p);
        assert(spec_ids_at(ids@, next) =~= spec_ids_at(ids@, pre).push(ids@[p as int]));
        proof { to_multiset_build(spec_ids_at(ids@, pre), ids@[p as int]); }
        insert_ascending(&mut members, ids[p]);
        let d = days[p];
        if d < min_day {
            min_day = d;
        }
        if d > max_day {
            max_day = d;
        }
        j = j + 1;
    }
    assert(indices@.subrange(0, indices@.len() as int) =~= indices@);
    let mut bytes: Vec<u8> = Vec::new();
    let mut m: usize = 0;
    while m < members.len()
        invariant
            m <= members@.len(),
            bytes@ == spec_id_bytes(members@.subrange(0, m as int)),
        decreases members@.len() - m,
    {
        let le = row_associated_data(members[m] as u64);
        let ghost before = bytes@;
        let mut q: usize = 0;
        while q < 8
            invariant
                q <= 8,
                le@.len() == 8,
                bytes@ == before + le@.subrange(0, q as int),
            decreases 8 - q,
        {
            bytes.push(le[q]);
            q = q + 1;
            assert(bytes@ =~= before + le@.subrange(0, q as int));
        }
        assert(le@.subrange(0, 8) =~= le@);
        assert(members@.subrange(0, m + 1).drop_last() =~= members@.subrange(0, m as int));
        m = m + 1;
    }
    assert(members@.subrange(0, members@.len() as int) =~= members@);
    let canonical_id = blake3_hash(&bytes);
    TripGroup { label, indices, member_asset_ids: members, canonical_id, start_day: min_day, end_day: max_day }
}

// ------------------------------------------------------------------ order

/// Strict lexicographic order on byte strings.
pub open spec fn spec_bytes_lt(a: Seq<u8>, b: Seq<u8>) -> bool
    decreases a.len(),
{
    if a.len() == 0 {
        b.len() > 0
    } else if b.len() == 0 {
        false
    } else if a[0] < b[0] {
        true
    } else if a[0] == b[0] {
        spec_bytes_lt(a.drop_first(), b.drop_first())
    } else {
        false
    }
}

proof fn lemma_bytes_asym(a: Seq<u8>, b: Seq<u8>)
    ensures
        !(spec_bytes_lt(a, b) && spec_bytes_lt(b, a)),
    decreases a.len(),
{
    if a.len() > 0 && b.len() > 0 && a[0] == b[0] {
        lemma_bytes_asym(a.drop_first(), b.drop_first());
    }
}

proof fn lemma_bytes_trans(a: Seq<u8>, b: Seq<u8>, c: Seq<u8>)
    requires
        spec_bytes_lt(a, b),
        spec_bytes_lt(b, c),
    ensures
        spec_bytes_lt(a, c),
    decreases a.len(),
{
    if a.len() > 0 && b.len() > 0 && c.len() > 0 && a[0] == b[0] && b[0] == c[0] {
        lemma_bytes_trans(a.drop_first(), b.drop_first(), c.drop_first());
    }
}

/// Whether trip `g` is listed strictly before trip `h`: by first day, then
/// by canonical id.
pub open spec fn spec_trip_before(g: TripGroup, h: TripGroup) -> bool {
    g.start_day < h.start_day || (g.start_day == h.start_day && spec_bytes_lt(
        g.canonical_id@,
        h.canonical_id@,
    ))
}

proof fn lemma_before_asym(g: TripGroup, h: TripGroup)
    ensures
        !(spec_trip_before(g, h) && spec_trip_before(h, g)),
{
    lemma_bytes_asym(g.canonical_id@, h.canonical_id@);
}

proof fn lemma_before_trans(g: TripGroup, h: TripGroup, k: TripGroup)
    requires
        spec_trip_before(g, h),
        spec_trip_before(h, k),
    ensures
        spec_trip_before(g, k),
{
    if g.start_day == h.start_day && h.start_day == k.start_day {
        lemma_bytes_trans(g.canonical_id@, h.canonical_id@, k.canonical_id@);
    }
}

fn bytes_lt(a: &[u8; 32], b: &[u8; 32]) -> (r: bool)
    ensures
        r == spec_bytes_lt(a@, b@),
{
    let mut i: usize = 0;
    assert(a@.subrange(0, 32) =~= a@);
    assert(b@.subrange(0, 32) =~= b@);
    while i < 32
        invariant
            i <= 32,
            a@.len() == 32,
            b@.len() == 32,
            spec_bytes_lt(a@, b@) == spec_bytes_lt(a@.subrange(i as int, 32), b@.subrange(i as int, 32)),
        decreases 32 - i,
    {
        if a[i] < b[i] {
            return true;
        }
        if a[i] != b[i] {
            return false;
        }
        assert(a@.subrange(i as int, 32).drop_first() =~= a@.subrange(i + 1, 32));
        assert(b@.subrange(i as int, 32).drop_first() =~= b@.subrange(i + 1, 32));
        i = i + 1;
    }
    false
}

fn trip_before(g: &TripGroup, h: &TripGroup) -> (r: bool)
    ensures
        r == spec_trip_before(*g, *h),
{
    g.start_day < h.start_day || (g.start_day == h.start_day && bytes_lt(&g.canonical_id, &h.canonical_id))
}

// --------------------------------------------------------------- grouping

proof fn lemma_positions_push(labels: Seq<i32>, x: i32, l: i32)
    ensures
        spec_positions(labels.push(x), l) == (if x == l {
            spec_positions(labels, l).push(labels.len() as usize)
        } else {
            spec_positions(labels, l)
        }),
{
    assert(labels.push(x).drop_last() =~= labels);
}

proof fn lemma_positions_bound(labels: Seq<i32>, l: i32)
    ensures
        forall|k: int| 0 <= k < spec_positions(labels, l).len() ==> #[trigger] spec_positions(labels, l)[k] < labels.len(),
    decreases labels.len(),
{
    if labels.len() > 0 {
        let r = labels.drop_last();
        lemma_positions_bound(r, l);
        let rest = spec_positions(r, l);
        if labels.last() == l {
            assert forall|k: int| 0 <= k < rest.push((labels.len() - 1) as usize).len() implies #[trigger] rest.push((labels.len() - 1) as usize)[k] < labels.len() by {
                if k < rest.len() {
                    assert(rest.push((labels.len() - 1) as usize)[k] == rest[k]);
                }
            }
        }
    }
}

proof fn lemma_positions_none(labels: Seq<i32>, l: i32)
    requires
        forall|k: int| 0 <= k < labels.len() ==> labels[k] != l,
    ensures
        spec_positions(labels, l).len() == 0,
    decreases labels.len(),
{
    if labels.len() > 0 {
        let r = labels.drop_last();
        assert forall|k: int| 0 <= k < r.len() implies r[k] != l by {
            assert(r[k] == labels[k]);
        }
        lemma_positions_none(r, l);
        assert(labels.last() == labels[labels.len() - 1]);
    }
}

/// Whether one of `trips` carries the label `l`.
pub open spec fn spec_has_label(trips: Seq<TripGroup>, l: i32) -> bool {
    exists|i: int| 0 <= i < trips.len() && #[trigger] trips[i].label == l
}

/// The trips of a clustering: one per cluster label (noise, labelled below
/// zero, makes none), listed by first day and then canonical id.
/// `labels[i]`, `asset_ids[i]` and `days[i]` describe the same point.
pub fn trips_from_labels(labels: &[i32], asset_ids: &[i64], days: &[i64]) -> (out: Vec<TripGroup>)
    requires
        labels@.len() == asset_ids@.len(),
        asset_ids@.len() == days@.len(),
    ensures
        forall|i: int| 0 <= i < out@.len() ==> spec_trip_of(labels@, asset_ids@, days@, #[trigger] out@[i]),
        forall|i: int, j: int| 0 <= i < j < out@.len() ==> out@[i].label != out@[j].label,
        forall|k: int| 0 <= k < labels@.len() && labels@[k] >= 0 ==> spec_has_label(out@, #[trigger] labels@[k]),
        forall|i: int, j: int| 0 <= i < j < out@.len() ==> !spec_trip_before(out@[j], out@[i]),
{
    let n = labels.len();
    let mut blabels: Vec<i32> = Vec::new();
    let mut bidx: Vec<Vec<usize>> = Vec::new();
    let mut i: usize = 0;
    while i < n
        invariant
            i <= n,
            n == labels@.len(),
            blabels@.len() == bidx@.len(),
            forall|a: int|
                0 <= a < blabels@.len() ==> #[trigger] blabels@[a] >= 0 && bidx@[a]@ == spec_positions(
                    labels@.subrange(0, i as int),
                    blabels@[a],
                ) && bidx@[a]@.len() > 0,
            forall|a: int, b: int| 0 <= a < b < blabels@.len() ==> blabels@[a] != blabels@[b],
            forall|k: int|
                0 <= k < i && labels@[k] >= 0 ==> exists|a: int|
                    0 <= a < blabels@.len() && #[trigger] blabels@[a] == labels@[k],
        decreases n - i,
    {
        let l = labels[i];
        let ghost pre = labels@.subrange(0, i as int);
        let ghost next = labels@.subrange(0, i + 1);
        assert(next =~= pre.push(l));
        proof {
            assert forall|z: i32| #[trigger] spec_positions(next, z) == (if l == z {
                spec_positions(pre, z).push(i as usize)
            } else {
                spec_positions(pre, z)
            }) by {
                lemma_positions_push(pre, l, z);
            }
        }
        if l >= 0 {
            let mut a: usize = 0;
            while a < blabels.len() && blabels[a] != l
                invariant
                    a <= blabels@.len(),
                    forall|b: int| 0 <= b < a ==> blabels@[b] != l,
                decreases blabels@.len() - a,
            {
                a = a + 1;
            }
            if a < blabels.len() {
                let ghost old_l = blabels@;
                let ghost old_b = bidx@;
                let mut v = bidx.remove(a);
                v.push(i);
                bidx.insert(a, v);
                proof {
                    assert forall|b: int| 0 <= b < blabels@.len() implies #[trigger] blabels@[b] >= 0 && bidx@[b]@ == spec_positions(next, blabels@[b]) && bidx@[b]@.len() > 0 by {
                        if b != a {
                            assert(bidx@[b] == old_b[b]);
                        }
                    }
                    assert forall|k: int| 0 <= k < i + 1 && labels@[k] >= 0 implies exists|c: int| 0 <= c < blabels@.len() && #[trigger] blabels@[c] == labels@[k] by {
                        if k == i {
                            assert(blabels@[a as int] == labels@[k]);
                        }
                    }
                }
            } else {
                proof {
                    assert forall|k: int| 0 <= k < pre.len() implies pre[k] != l by {
                        if pre[k] == l {
                            assert(labels@[k] == l);
                            let c = choose|c: int| 0 <= c < blabels@.len() && #[trigger] blabels@[c] == labels@[k];
                            assert(blabels@[c] != l);
                        }
                    }
                    lemma_positions_none(pre, l);
                }
                let ghost old_b = bidx@;
                let ghost old_l = blabels@;
                let mut v: Vec<usize> = Vec::new();
                v.push(i);
                blabels.push(l);
                bidx.push(v);
                proof {
                    assert(spec_positions(pre, l) =~= Seq::<usize>::empty());
                    assert(bidx@[a as int]@ =~= Seq::<usize>::empty().push(i as usize));
                    assert forall|b: int| 0 <= b < blabels@.len() implies #[trigger] blabels@[b] >= 0 && bidx@[b]@ == spec_positions(next, blabels@[b]) && bidx@[b]@.len() > 0 by {
                        if b < a {
                            assert(bidx@[b] == old_b[b]);
                        }
                    }
                    assert forall|k: int| 0 <= k < i + 1 && labels@[k] >= 0 implies exists|c: int| 0 <= c < blabels@.len() && #[trigger] blabels@[c] == labels@[k] by {
                        if k == i {
                            assert(blabels@[a as int] == labels@[k]);
                        } else {
                            let c = choose|c: int| 0 <= c < old_l.len() && #[trigger] old_l[c] == labels@[k];
                            assert(blabels@[c] == old_l[c]);
                        }
                    }
                }
            }
        } else {
            proof {
                assert forall|k: int| 0 <= k < i + 1 && labels@[k] >= 0 implies exists|c: int| 0 <= c < blabels@.len() && #[trigger] blabels@[c] == labels@[k] by {
                }
            }
        }
        i = i + 1;
    }
    assert(labels@.subrange(0, n as int) =~= labels@);
    let ghost all_l = blabels@;
    let mut out: Vec<TripGroup> = Vec::new();
    while bidx.len() > 0
        invariant
            blabels@.len() == bidx@.len(),
            blabels@.len() <= all_l.len(),
            forall|a: int| 0 <= a < blabels@.len() ==> blabels@[a] == all_l[a],
            forall|a: int|
                0 <= a < blabels@.len() ==> #[trigger] blabels@[a] >= 0 && bidx@[a]@ == spec_positions(labels@, blabels@[a]) && bidx@[a]@.len() > 0,
            forall|a: int, b: int| 0 <= a < b < all_l.len() ==> all_l[a] != all_l[b],
            labels@.len() == asset_ids@.len(),
            asset_ids@.len() == days@.len(),
            forall|i: int| 0 <= i < out@.len() ==> spec_trip_of(labels@, asset_ids@, days@, #[trigger] out@[i]),
            forall|i: int| 0 <= i < out@.len() ==> exists|a: int| blabels@.len() <= a < all_l.len() && all_l[a] == #[trigger] out@[i].label,
            forall|a: int| blabels@.len() <= a < all_l.len() ==> spec_has_label(out@, #[trigger] all_l[a]),
            forall|i: int, j: int| 0 <= i < j < out@.len() ==> out@[i].label != out@[j].label,
            forall|i: int, j: int| 0 <= i < j < out@.len() ==> !spec_trip_before(out@[j], out@[i]),
        decreases bidx@.len(),
    {
        let r = bidx.len() - 1;
        let v = bidx.pop().unwrap();
        let l = blabels.pop().unwrap();
        assert(l == all_l[r as int]);
        proof { lemma_positions_bound(labels@, l); }
        let g = trip_group(l, v, asset_ids, days);
        let mut p: usize = 0;
        while p < out.len() && !trip_before(&g, &out[p])
            invariant
                p <= out@.len(),
                forall|k: int| 0 <= k < p ==> !spec_trip_before(g, out@[k]),
            decreases out@.len() - p,
        {
            p = p + 1;
        }
        let ghost old_out = out@;
        out.insert(p, g);
        proof {
            assert forall|a: int, b: int| 0 <= a < b < out@.len() implies !spec_trip_before(out@[b], out@[a]) by {
                if b < p {
                    assert(out@[a] == old_out[a] && out@[b] == old_out[b]);
                } else if b == p {
                    assert(out@[a] == old_out[a]);
                } else if a < p {
                    assert(out@[a] == old_out[a] && out@[b] == old_out[b - 1]);
                } else if a == p {
                    assert(out@[b] == old_out[b - 1]);
                    assert(spec_trip_before(g, old_out[p as int]));
                    if spec_trip_before(old_out[b - 1], g) {
                        if b - 1 == p {
                            lemma_before_asym(g, old_out[p as int]);
                        } else {
                            lemma_before_trans(old_out[b - 1], g, old_out[p as int]);
                        }
                    }
                } else {
                    assert(out@[a] == old_out[a - 1] && out@[b] == old_out[b - 1]);
                }
            }
            assert forall|x: int| 0 <= x < out@.len() implies spec_trip_of(labels@, asset_ids@, days@, #[trigger] out@[x]) by {
                if x < p {
                    assert(out@[x] == old_out[x]);
                } else if x > p {
                    assert(out@[x] == old_out[x - 1]);
                }
            }
            assert forall|x: int| 0 <= x < out@.len() implies exists|a: int| blabels@.len() <= a < all_l.len() && all_l[a] == #[trigger] out@[x].label by {
                if x < p {
                    assert(out@[x] == old_out[x]);
                    let a = choose|a: int| blabels@.len() + 1 <= a < all_l.len() && all_l[a] == old_out[x].label;
                } else if x > p {
                    assert(out@[x] == old_out[x - 1]);
                    let a = choose|a: int| blabels@.len() + 1 <= a < all_l.len() && all_l[a] == old_out[x - 1].label;
                } else {
                    assert(all_l[r as int] == out@[x].label);
                }
            }
            assert forall|a: int| blabels@.len() <= a < all_l.len() implies spec_has_label(out@, #[trigger] all_l[a]) by {
                if a == r {
                    assert(out@[p as int].label == all_l[a]);
                } else {
                    assert(spec_has_label(old_out, all_l[a]));
                    let x = choose|x: int| 0 <= x < old_out.len() && #[trigger] old_out[x].label == all_l[a];
                    if x < p {
                        assert(out@[x] == old_out[x]);
                    } else {
                        assert(out@[x + 1] == old_out[x]);
                    }
                }
            }
            assert forall|a: int, b: int| 0 <= a < b < out@.len() implies out@[a].label != out@[b].label by {
                if a != p && b != p {
                    let a0 = if a < p { a } else { a - 1 };
                    let b0 = if b < p { b } else { b - 1 };
                    assert(out@[a] == old_out[a0]);
                    assert(out@[b] == old_out[b0]);
                } else {
                    let o = if a == p { b } else { a };
                    let o0 = if o < p { o } else { o - 1 };
                    assert(out@[o] == old_out[o0]);
                    let c = choose|c: int| blabels@.len() + 1 <= c < all_l.len() && all_l[c] == old_out[o0].label;
                    assert(all_l[r as int] != all_l[c]);
                }
            }
        }
    }
    proof {
        assert forall|k: int| 0 <= k < labels@.len() && labels@[k] >= 0 implies spec_has_label(out@, #[trigger] labels@[k]) by {
            let a = choose|a: int| 0 <= a < all_l.len() && #[trigger] all_l[a] == labels@[k];
            assert(spec_has_label(out@, all_l[a]));
        }
    }
    out
}

/// Two ascending sequences with the same elements are the same sequence.
proof fn lemma_ascending_unique(a: Seq<i64>, b: Seq<i64>)
    requires
        spec_ascending(a),
        spec_ascending(b),
        a.to_multiset() == b.to_multiset(),
    ensures
        a == b,
    decreases a.len(),
{
    broadcast use vstd::seq_lib::group_to_multiset_ensures;

    if a.len() == 0 {
        if b.len() > 0 {
            to_multiset_contains(b, b[0]);
            to_multiset_contains(a, b[0]);
            assert(b.contains(b[0]));
        }
        assert(a =~= b);
    } else {
        to_multiset_contains(a, a[0]);
        to_multiset_contains(b, a[0]);
        assert(a.contains(a[0]));
        assert(b.contains(a[0]));
        assert(b.len() > 0);
        to_multiset_contains(b, b[0]);
        to_multiset_contains(a, b[0]);
        assert(b.contains(b[0]));
        assert(a.contains(b[0]));
        let ia = choose|i: int| 0 <= i < a.len() && a[i] == b[0];
        let ib = choose|i: int| 0 <= i < b.len() && b[i] == a[0];
        assert(a[0] <= a[ia]);
        assert(b[0] <= b[ib]);
        assert(a[0] == b[0]);
        to_multiset_remove(a, 0);
        to_multiset_remove(b, 0);
        assert(a.remove(0) =~= a.drop_first());
        assert(b.remove(0) =~= b.drop_first());
        assert(spec_ascending(a.drop_first()));
        assert(spec_ascending(b.drop_first()));
        lemma_ascending_unique(a.drop_first(), b.drop_first());
        assert(a =~= seq![a[0]] + a.drop_first());
        assert(b =~= seq![b[0]] + b.drop_first());
    }
}

/// Law: the canonical id of a trip depends only on which assets it holds.
/// Two trips whose member ids are the same assets (in any input order, on
/// any run) carry the same canonical id and the same sorted members.
pub proof fn lemma_canonical_id_deterministic(g: TripGroup, h: TripGroup)
    requires
        spec_ascending(g.member_asset_ids@),
        spec_ascending(h.member_asset_ids@),
        g.canonical_id@ == spec_blake3_hash(spec_id_bytes(g.member_asset_ids@)),
        h.canonical_id@ == spec_blake3_hash(spec_id_bytes(h.member_asset_ids@)),
        g.member_asset_ids@.to_multiset() == h.member_asset_ids@.to_multiset(),
    ensures
        g.member_asset_ids@ == h.member_asset_ids@,
        g.canonical_id == h.canonical_id,
{
    lemma_ascending_unique(g.member_asset_ids@, h.member_asset_ids@);
    assert(g.canonical_id@ =~= h.canonical_id@);
}

proof fn lemma_positions_label(labels: Seq<i32>, l: i32)
    requires
        labels.len() <= usize::MAX,
    ensures
        forall|k: int| 0 <= k < spec_positions(labels, l).len() ==> {
            &&& spec_positions(labels, l)[k] < labels.len()
            &&& labels[#[trigger] spec_positions(labels, l)[k] as int] == l
        },
    decreases labels.len(),
{
    if labels.len() > 0 {
        let r = labels.drop_last();
        lemma_positions_label(r, l);
        let rest = spec_positions(r, l);
        let all = spec_positions(labels, l);
        assert forall|k: int| 0 <= k < all.len() implies {
            &&& all[k] < labels.len()
            &&& labels[#[trigger] all[k] as int] == l
        } by {
            if labels.last() == l {
                assert(all == rest.push((labels.len() - 1) as usize));
            } else {
                assert(all == rest);
            }
            if k < rest.len() {
                assert(all[k] == rest[k]);
                assert(labels[rest[k] as int] == r[rest[k] as int]);
            } else {
                assert(all[k] == (labels.len() - 1) as usize);
                assert(labels[labels.len() - 1] == labels.last());
            }
        }
    }
}

/// Law: no point lies in two trips. Among trips with distinct labels, each
/// the trip of its label (as [`trips_from_labels`] gives them), the
/// positions of the points of two different trips never meet, and every
/// member id is the id of one of the points.
pub proof fn lemma_trips_disjoint(labels: Seq<i32>, ids: Seq<i64>, days: Seq<i64>, trips: Seq<TripGroup>)
    requires
        labels.len() == ids.len(),
        labels.len() <= usize::MAX,
        forall|i: int| 0 <= i < trips.len() ==> spec_trip_of(labels, ids, days, #[trigger] trips[i]),
        forall|i: int, j: int| 0 <= i < j < trips.len() ==> trips[i].label != trips[j].label,
    ensures
        forall|i: int, j: int, a: int, b: int|
            0 <= i < trips.len() && 0 <= j < trips.len() && i != j && 0 <= a < trips[i].indices@.len() && 0 <= b
                < trips[j].indices@.len() ==> #[trigger] trips[i].indices@[a] != #[trigger] trips[j].indices@[b],
        forall|i: int, m: int| 0 <= i < trips.len() && 0 <= m < trips[i].member_asset_ids@.len() ==> ids.contains(
            #[trigger] trips[i].member_asset_ids@[m],
        ),
{
    assert forall|i: int, j: int, a: int, b: int|
        0 <= i < trips.len() && 0 <= j < trips.len() && i != j && 0 <= a < trips[i].indices@.len() && 0 <= b
            < trips[j].indices@.len() implies #[trigger] trips[i].indices@[a] != #[trigger] trips[j].indices@[b] by {
        assert(spec_trip_of(labels, ids, days, trips[i]));
        assert(spec_trip_of(labels, ids, days, trips[j]));
        lemma_positions_label(labels, trips[i].label);
        lemma_positions_label(labels, trips[j].label);
        assert(labels[trips[i].indices@[a] as int] == trips[i].label);
        assert(labels[trips[j].indices@[b] as int] == trips[j].label);
        if i < j {
            assert(trips[i].label != trips[j].label);
        } else {
            assert(trips[j].label != trips[i].label);
        }
    }
    assert forall|i: int, m: int| 0 <= i < trips.len() && 0 <= m < trips[i].member_asset_ids@.len() implies ids.contains(
        #[trigger] trips[i].member_asset_ids@[m],
    ) by {
        let g = trips[i];
        assert(spec_trip_of(labels, ids, days, g));
        let x = g.member_asset_ids@[m];
        let at = spec_ids_at(ids, g.indices@);
        assert(g.member_asset_ids@.contains(x));
        to_multiset_contains(g.member_asset_ids@, x);
        to_multiset_contains(at, x);
        assert(at.contains(x));
        let q = choose|q: int| 0 <= q < at.len() && at[q] == x;
        lemma_positions_label(labels, g.label);
        assert(g.indices@[q] < labels.len());
        assert(ids[g.indices@[q] as int] == x);
    }
}


/// The trips of `asset_ids.len()` points clustered with the minimum
/// cluster size `min_samples`: none when there are fewer points than that,
/// else those of [`trips_from_labels`].
pub fn trips_of_points(labels: &[i32], asset_ids: &[i64], days: &[i64], min_samples: usize) -> (out: Vec<TripGroup>)
    requires
        labels@.len() == asset_ids@.len(),
        asset_ids@.len() == days@.len(),
    ensures
        asset_ids@.len() < min_samples ==> out@.len() == 0,
        asset_ids@.len() >= min_samples ==> {
            &&& forall|i: int| 0 <= i < out@.len() ==> spec_trip_of(labels@, asset_ids@, days@, #[trigger] out@[i])
            &&& forall|i: int, j: int| 0 <= i < j < out@.len() ==> out@[i].label != out@[j].label
            &&& forall|k: int| 0 <= k < labels@.len() && labels@[k] >= 0 ==> spec_has_label(out@, #[trigger] labels@[k])
            &&& forall|i: int, j: int| 0 <= i < j < out@.len() ==> !spec_trip_before(out@[j], out@[i])
        },
{
    if asset_ids.len() < min_samples {
        Vec::new()
    } else {
        trips_from_labels(labels, asset_ids, days)
    }
}

/// Law: the trips of a clustering, as [`trips_from_labels`] gives them,
/// are listed by first day (then canonical id); each has members, sorted
/// ascending, drawn from the points' ids, one per point of its cluster; its
/// canonical id is the BLAKE3 of its members' little-endian bytes; its days
/// run from the first to the last day of its points; no point lies in two
/// trips; and every cluster has its trip.
pub proof fn lemma_trip_law(labels: Seq<i32>, ids: Seq<i64>, days: Seq<i64>, trips: Seq<TripGroup>)
    requires
        labels.len() == ids.len(),
        ids.len() == days.len(),
        labels.len() <= usize::MAX,
        forall|i: int| 0 <= i < trips.len() ==> spec_trip_of(labels, ids, days, #[trigger] trips[i]),
        forall|i: int, j: int| 0 <= i < j < trips.len() ==> trips[i].label != trips[j].label,
        forall|k: int| 0 <= k < labels.len() && labels[k] >= 0 ==> spec_has_label(trips, #[trigger] labels[k]),
        forall|i: int, j: int| 0 <= i < j < trips.len() ==> !spec_trip_before(trips[j], trips[i]),
    ensures
        forall|i: int, j: int| 0 <= i < j < trips.len() ==> (#[trigger] trips[i]).start_day <= (#[trigger] trips[j]).start_day
            && (trips[i].start_day == trips[j].start_day ==> !spec_bytes_lt(trips[j].canonical_id@, trips[i].canonical_id@)),
        forall|i: int| 0 <= i < trips.len() ==> {
            &&& (#[trigger] trips[i]).member_asset_ids@.len() == trips[i].indices@.len()
            &&& trips[i].member_asset_ids@.len() > 0
            &&& spec_ascending(trips[i].member_asset_ids@)
            &&& trips[i].canonical_id@ == spec_blake3_hash(spec_id_bytes(trips[i].member_asset_ids@))
            &&& trips[i].start_day == spec_min_day(days, trips[i].indices@)
            &&& trips[i].end_day == spec_max_day(days, trips[i].indices@)
        },
        forall|i: int, m: int| 0 <= i < trips.len() && 0 <= m < trips[i].member_asset_ids@.len() ==> ids.contains(
            #[trigger] trips[i].member_asset_ids@[m],
        ),
        forall|i: int, j: int, a: int, b: int|
            0 <= i < trips.len() && 0 <= j < trips.len() && i != j && 0 <= a < trips[i].indices@.len() && 0 <= b
                < trips[j].indices@.len() ==> #[trigger] trips[i].indices@[a] != #[trigger] trips[j].indices@[b],
        forall|k: int| 0 <= k < labels.len() && labels[k] >= 0 ==> spec_has_label(trips, #[trigger] labels[k]),
{
    lemma_trips_disjoint(labels, ids, days, trips);
    assert forall|i: int, j: int| 0 <= i < j < trips.len() implies (#[trigger] trips[i]).start_day <= (
    #[trigger] trips[j]).start_day && (trips[i].start_day == trips[j].start_day ==> !spec_bytes_lt(
        trips[j].canonical_id@,
        trips[i].canonical_id@,
    )) by {
        assert(!spec_trip_before(trips[j], trips[i]));
    }
    assert forall|i: int| 0 <= i < trips.len() implies {
        &&& (#[trigger] trips[i]).member_asset_ids@.len() == trips[i].indices@.len()
        &&& trips[i].member_asset_ids@.len() > 0
        &&& spec_ascending(trips[i].member_asset_ids@)
        &&& trips[i].canonical_id@ == spec_blake3_hash(spec_id_bytes(trips[i].member_asset_ids@))
        &&& trips[i].start_day == spec_min_day(days, trips[i].indices@)
        &&& trips[i].end_day == spec_max_day(days, trips[i].indices@)
    } by {
        let g = trips[i];
        assert(spec_trip_of(labels, ids, days, g));
        vstd::seq_lib::to_multiset_len(g.member_asset_ids@);
        vstd::seq_lib::to_multiset_len(spec_ids_at(ids, g.indices@));
    }
}

// ------------------------------------------------------------ day ranges

/// The English abbreviation of month `m` (1 to 12).
pub open spec fn spec_month_abbr(m: u32) -> Seq<char> {
    if m == 1 {
        "Jan"@
    } else if m == 2 {
        "Feb"@
    } else if m == 3 {
        "Mar"@
    } else if m == 4 {
        "Apr"@
    } else if m == 5 {
        "May"@
    } else if m == 6 {
        "Jun"@
    } else if m == 7 {
        "Jul"@
    } else if m == 8 {
        "Aug"@
    } else if m == 9 {
        "Sep"@
    } else if m == 10 {
        "Oct"@
    } else if m == 11 {
        "Nov"@
    } else {
        "Dec"@
    }
}

/// The decimal digit `k` (0 to 9).
pub open spec fn spec_digit(k: nat) -> char {
    ((k + 48) as u32) as char
}

/// `n` (below 10 000) in four digits, zero-padded.
pub open spec fn spec_pad4(n: nat) -> Seq<char> {
    seq![spec_digit(n / 1000 % 10), spec_digit(n / 100 % 10), spec_digit(n / 10 % 10), spec_digit(n % 10)]
}

/// A year as chrono's `%Y` writes it: zero-padded to four digits, with a
/// sign before a year outside 0 to 9999.
pub open spec fn spec_year_text(y: int) -> Seq<char> {
    if 0 <= y <= 9999 {
        spec_pad4(y as nat)
    } else if y > 9999 {
        "+"@ + spec_decimal(y as nat)
    } else if -y <= 9999 {
        "-"@ + spec_pad4((-y) as nat)
    } else {
        "-"@ + spec_decimal((-y) as nat)
    }
}

/// A date as chrono's `%b %-d, %Y` (with the year) or `%b %-d` writes it.
pub open spec fn spec_date_text(y: i32, m: u32, d: u32, with_year: bool) -> Seq<char> {
    spec_month_abbr(m) + " "@ + spec_decimal(d as nat) + if with_year {
        ", "@ + spec_year_text(y as int)
    } else {
        ""@
    }
}

/// Calls `chrono::NaiveDate::from_ymd_opt` and formats the date with
/// `fmt`. The contract claims what chrono documents of the two formats
/// admitted: `%b` the abbreviated English month name, `%-d` the day without
/// padding, `%Y` the year zero-padded to four digits with a sign before a
/// year outside 0 to 9999; and that there is a text exactly when the date
/// exists.
#[verifier::external_body]
fn format_date(y: i32, m: u32, d: u32, fmt: &str) -> (r: Option<String>)
    requires
        fmt@ == "%b %-d, %Y"@ || fmt@ == "%b %-d"@,
    ensures
        r is Some <==> spec_ordinal_of(y, m, d) is Some,
        r matches Some(t) ==> t@ == spec_date_text(y, m, d, fmt@ == "%b %-d, %Y"@),
{
    chrono::NaiveDate::from_ymd_opt(y, m, d).map(|x| x.format(fmt).to_string())
}

/// The text of a date that exists.
fn date_text(y: i32, m: u32, d: u32, with_year: bool) -> (t: String)
    requires
        spec_ordinal_of(y, m, d) is Some,
    ensures
        t@ == spec_date_text(y, m, d, with_year),
{
    proof {
        reveal_strlit("%b %-d, %Y");
        reveal_strlit("%b %-d");
        assert("%b %-d"@.len() != "%b %-d, %Y"@.len());
    }
    let r = if with_year {
        format_date(y, m, d, "%b %-d, %Y")
    } else {
        format_date(y, m, d, "%b %-d")
    };
    match r {
        Some(t) => t,
        None => String::new(),
    }
}

/// A day since 1970-01-01, days before it counting as the epoch.
pub open spec fn spec_clamp_day(d: i64) -> u64 {
    if d > 0 {
        d as u64
    } else {
        0
    }
}

/// A span of days as its trip card shows it: `Jan 3, 2024` for one day,
/// `Jan 3 → Jan 10, 2024` within a year, `Dec 30, 2023 → Jan 2, 2024`
/// across years, and `day <start>..<end>` where a day has no date.
pub open spec fn spec_format_day_range(start: i64, end: i64) -> Seq<char> {
    match (spec_date_of_day(spec_clamp_day(start)), spec_date_of_day(spec_clamp_day(end))) {
        (Some((sy, sm, sd)), Some((ey, em, ed))) => if sy == ey && sm == em && sd == ed {
            spec_date_text(sy, sm, sd, true)
        } else if sy == ey {
            spec_date_text(sy, sm, sd, false) + " → "@ + spec_date_text(ey, em, ed, true)
        } else {
            spec_date_text(sy, sm, sd, true) + " → "@ + spec_date_text(ey, em, ed, true)
        },
        _ => "day "@ + spec_int_text(start as int) + ".."@ + spec_int_text(end as int),
    }
}

/// Render a span of days since the epoch as its trip card shows it.
pub fn format_day_range(start_day: i64, end_day: i64) -> (t: String)
    ensures
        t@ == spec_format_day_range(start_day, end_day),
{
    let s = date_of_day(if start_day > 0 { start_day as u64 } else { 0 });
    let e = date_of_day(if end_day > 0 { end_day as u64 } else { 0 });
    proof {
        reveal_strlit(" → ");
        reveal_strlit("day ");
        reveal_strlit("..");
    }
    match (s, e) {
        (Some((sy, sm, sd)), Some((ey, em, ed))) => {
            if sy == ey && sm == em && sd == ed {
                date_text(sy, sm, sd, true)
            } else {
                let mut t = date_text(sy, sm, sd, sy != ey);
                t.push_str(" → ");
                let rest = date_text(ey, em, ed, true);
                t.push_str(rest.as_str());
                t
            }
        },
        _ => {
            let mut t = String::new();
            t.push_str("day ");
            push_int(&mut t, start_day);
            t.push_str("..");
            push_int(&mut t, end_day);
            t
        },
    }
}

/// Law: how a trip card writes a date. The month is its English
/// three-letter abbreviation, January to December in order; the day has no
/// padding; a year from 0 to 9999 has four digits, zero-padded.
pub proof fn lemma_date_text_rule(y: i32, m: u32, d: u32)
    ensures
        spec_month_abbr(1) == "Jan"@ && spec_month_abbr(2) == "Feb"@ && spec_month_abbr(3) == "Mar"@
            && spec_month_abbr(4) == "Apr"@ && spec_month_abbr(5) == "May"@ && spec_month_abbr(6) == "Jun"@
            && spec_month_abbr(7) == "Jul"@ && spec_month_abbr(8) == "Aug"@ && spec_month_abbr(9) == "Sep"@
            && spec_month_abbr(10) == "Oct"@ && spec_month_abbr(11) == "Nov"@ && spec_month_abbr(12) == "Dec"@,
        spec_date_text(y, m, d, false) == spec_month_abbr(m) + " "@ + spec_decimal(d as nat),
        spec_date_text(y, m, d, true) == spec_month_abbr(m) + " "@ + spec_decimal(d as nat) + ", "@ + spec_year_text(
            y as int,
        ),
        0 <= y <= 9999 ==> spec_year_text(y as int) == seq![
            spec_digit((y / 1000) as nat),
            spec_digit((y / 100 % 10) as nat),
            spec_digit((y / 10 % 10) as nat),
            spec_digit((y % 10) as nat),
        ],
        y > 9999 ==> spec_year_text(y as int) == "+"@ + spec_decimal(y as nat),
        forall|k: nat| k < 10 ==> (#[trigger] spec_digit(k)) as u32 == 48 + k,
{
    reveal_strlit("");
    assert(""@.len() == 0);
    assert(spec_month_abbr(m) + " "@ + spec_decimal(d as nat) + ""@ =~= spec_month_abbr(m) + " "@ + spec_decimal(d as nat));
    if 0 <= y <= 9999 {
        assert((y / 1000) % 10 == y / 1000);
    }
}

/// Law: a trip's first day is the earliest day of its points and its last
/// day the latest: no point is earlier than the first or later than the
/// last, and some point falls on each.
pub proof fn lemma_day_span_rule(days: Seq<i64>, pos: Seq<usize>)
    requires
        pos.len() > 0,
        forall|k: int| 0 <= k < pos.len() ==> #[trigger] pos[k] < days.len(),
    ensures
        forall|k: int| 0 <= k < pos.len() ==> spec_min_day(days, pos) <= days[#[trigger] pos[k] as int] <= spec_max_day(
            days,
            pos,
        ),
        exists|k: int| 0 <= k < pos.len() && days[#[trigger] pos[k] as int] == spec_min_day(days, pos),
        exists|k: int| 0 <= k < pos.len() && days[#[trigger] pos[k] as int] == spec_max_day(days, pos),
    decreases pos.len(),
{
    let pre = pos.drop_last();
    let l = pos.len() - 1;
    assert(pos[l] == pos.last());
    if pre.len() > 0 {
        assert forall|k: int| 0 <= k < pre.len() implies #[trigger] pre[k] < days.len() by {
            assert(pre[k] == pos[k]);
        }
        lemma_day_span_rule(days, pre);
        assert forall|k: int| 0 <= k < pos.len() implies spec_min_day(days, pos) <= days[#[trigger] pos[k] as int]
            <= spec_max_day(days, pos) by {
            if k < l {
                assert(pre[k] == pos[k]);
            }
        }
        let a = choose|k: int| 0 <= k < pre.len() && days[#[trigger] pre[k] as int] == spec_min_day(days, pre);
        let b = choose|k: int| 0 <= k < pre.len() && days[#[trigger] pre[k] as int] == spec_max_day(days, pre);
        assert(pre[a] == pos[a] && pre[b] == pos[b]);
        if days[pos.last() as int] < spec_min_day(days, pre) {
            assert(days[pos[l] as int] == spec_min_day(days, pos));
        } else {
            assert(days[pos[a] as int] == spec_min_day(days, pos));
        }
        if days[pos.last() as int] > spec_max_day(days, pre) {
            assert(days[pos[l] as int] == spec_max_day(days, pos));
        } else {
            assert(days[pos[b] as int] == spec_max_day(days, pos));
        }
    } else {
        assert(spec_min_day(days, pre) == i64::MAX);
        assert(spec_max_day(days, pre) == i64::MIN);
        assert forall|k: int| 0 <= k < pos.len() implies spec_min_day(days, pos) <= days[#[trigger] pos[k] as int]
            <= spec_max_day(days, pos) by {
            assert(k == l);
        }
        assert(days[pos[l] as int] == spec_min_day(days, pos));
        assert(days[pos[l] as int] == spec_max_day(days, pos));
    }
}

/// Law: the points of a cluster are exactly the positions that carry its
/// label, in increasing order.
pub proof fn lemma_positions_rule(labels: Seq<i32>, l: i32)
    requires
        labels.len() <= usize::MAX,
    ensures
        forall|k: int| 0 <= k < spec_positions(labels, l).len() ==> (#[trigger] spec_positions(labels, l)[k])
            < labels.len() && labels[spec_positions(labels, l)[k] as int] == l,
        forall|q: int| 0 <= q < labels.len() && labels[q] == l ==> spec_positions(labels, l).contains(q as usize),
        forall|a: int, b: int| 0 <= a < b < spec_positions(labels, l).len() ==> spec_positions(labels, l)[a]
            < spec_positions(labels, l)[b],
    decreases labels.len(),
{
    lemma_positions_label(labels, l);
    if labels.len() > 0 {
        let pre = labels.drop_last();
        lemma_positions_rule(pre, l);
        lemma_positions_bound(pre, l);
        let r = spec_positions(pre, l);
        let all = spec_positions(labels, l);
        let last = (labels.len() - 1) as usize;
        if labels.last() == l {
            assert(all == r.push(last));
        } else {
            assert(all == r);
        }
        assert forall|q: int| 0 <= q < labels.len() && labels[q] == l implies all.contains(q as usize) by {
            if q < pre.len() {
                assert(pre[q] == labels[q]);
                let m = choose|m: int| 0 <= m < r.len() && r[m] == q as usize;
                assert(all[m] == r[m]);
            } else {
                assert(labels[q] == labels.last());
                assert(all[r.len() as int] == last);
            }
        }
        assert forall|a: int, b: int| 0 <= a < b < all.len() implies all[a] < all[b] by {
            if b < r.len() {
                assert(all[a] == r[a] && all[b] == r[b]);
            } else {
                assert(all[a] == r[a]);
                assert(r[a] < pre.len());
            }
        }
    }
}

/// Law: the order of canonical trip ids is lexicographic: `a` comes before `b` exactly
/// when at the first position where they differ `a` has the smaller
/// byte, or `a` is a proper prefix of `b`.
pub proof fn lemma_bytes_order_rule(a: Seq<u8>, b: Seq<u8>)
    ensures
        spec_bytes_lt(a, b) <==> ((exists|i: int| #![trigger a[i], b[i]] 0 <= i < a.len() && i < b.len() && a.subrange(0, i) == b.subrange(0, i)
            && a[i] < b[i]) || (a.len() < b.len() && a == b.subrange(0, a.len() as int))),
    decreases a.len(),
{
    if a.len() > 0 && b.len() > 0 && a[0] == b[0] {
        lemma_bytes_order_rule(a.drop_first(), b.drop_first());
        let a1 = a.drop_first();
        let b1 = b.drop_first();
        if exists|i: int| #![trigger a1[i], b1[i]] 0 <= i < a1.len() && i < b1.len() && a1.subrange(0, i) == b1.subrange(0, i) && a1[i] < b1[i] {
            let i = choose|i: int| #![trigger a1[i], b1[i]] 0 <= i < a1.len() && i < b1.len() && a1.subrange(0, i) == b1.subrange(0, i) && a1[i] < b1[i];
            assert(a.subrange(0, i + 1) =~= seq![a[0]] + a1.subrange(0, i));
            assert(b.subrange(0, i + 1) =~= seq![b[0]] + b1.subrange(0, i));
            assert(a[i + 1] == a1[i] && b[i + 1] == b1[i]);
        }
        if exists|i: int| #![trigger a[i], b[i]] 0 <= i < a.len() && i < b.len() && a.subrange(0, i) == b.subrange(0, i) && a[i] < b[i] {
            let i = choose|i: int| #![trigger a[i], b[i]] 0 <= i < a.len() && i < b.len() && a.subrange(0, i) == b.subrange(0, i) && a[i] < b[i];
            assert(i > 0);
            assert(a1.subrange(0, i - 1) =~= a.subrange(0, i).drop_first());
            assert(b1.subrange(0, i - 1) =~= b.subrange(0, i).drop_first());
            assert(a1[i - 1] == a[i] && b1[i - 1] == b[i]);
        }
        if a1.len() < b1.len() && a1 == b1.subrange(0, a1.len() as int) {
            assert(a =~= seq![a[0]] + a1);
            assert(b.subrange(0, a.len() as int) =~= seq![b[0]] + b1.subrange(0, a1.len() as int));
            assert(a =~= b.subrange(0, a.len() as int));
        }
        if a.len() < b.len() && a == b.subrange(0, a.len() as int) {
            assert(a1 =~= b1.subrange(0, a1.len() as int));
        }
    } else if a.len() > 0 && b.len() > 0 {
        assert(a.subrange(0, 0) =~= b.subrange(0, 0));
        if a.len() < b.len() && a == b.subrange(0, a.len() as int) {
            assert(a[0] == b.subrange(0, a.len() as int)[0]);
        }
        if exists|i: int| #![trigger a[i], b[i]] 0 <= i < a.len() && i < b.len() && a.subrange(0, i) == b.subrange(0, i) && a[i] < b[i] {
            let i = choose|i: int| #![trigger a[i], b[i]] 0 <= i < a.len() && i < b.len() && a.subrange(0, i) == b.subrange(0, i) && a[i] < b[i];
            if i > 0 {
                assert(a.subrange(0, i)[0] == b.subrange(0, i)[0]);
            }
        }
    } else if a.len() == 0 {
        assert(a =~= b.subrange(0, 0));
    }
}

} // verus!
