//! On-this-day memory cards.
//!
//! For each prior year where the user has assets within ±3 days of today's
//! month and day, emit a memory group: that year and its matching assets.
//! Memories are computed on the fly, never stored.

use vstd::prelude::*;
use vstd::seq_lib::to_multiset_build;
use vstd::seq_lib::to_multiset_insert;

verus! {

/// Window (in days) around today's month-day: a photo taken up to this many
/// days before or after today's date in a prior year qualifies.
pub const WINDOW_DAYS: i64 = 3;

/// One memory card: a prior year with its matching asset ids.
#[derive(Debug, Clone)]
pub struct MemoryGroup {
    /// Year the memories were taken in.
    pub year: i32,
    /// Years ago, relative to today.
    pub years_ago: i32,
    /// Matching asset ids, sorted.
    pub asset_ids: Vec<i64>,
}

/// The calendar date `day` days after 1970-01-01, as `(year, month, day)`.
pub uninterp spec fn spec_date_of_day(day: u64) -> Option<(i32, u32, u32)>;

/// Whether `y` is a leap year of the proleptic Gregorian calendar.
pub open spec fn spec_is_leap(y: int) -> bool {
    (y % 4 == 0 && y % 100 != 0) || y % 400 == 0
}

/// The number of days of month `m` of year `y`.
pub open spec fn spec_month_len(y: int, m: int) -> int {
    if m == 2 {
        if spec_is_leap(y) { 29 } else { 28 }
    } else if m == 4 || m == 6 || m == 9 || m == 11 {
        30
    } else {
        31
    }
}

/// The days of year `y` before the first of month `m`.
pub open spec fn spec_days_before(y: int, m: int) -> int
    decreases m,
{
    if m <= 1 {
        0
    } else {
        spec_days_before(y, m - 1) + spec_month_len(y, m - 1)
    }
}

/// The day of the year (1-based) of a calendar date, if the date exists
/// and its year is within chrono's range, -262143 to 262142.
pub open spec fn spec_ordinal_of(year: i32, month: u32, day: u32) -> Option<u32> {
    if -262143 <= year <= 262142 && 1 <= month <= 12 && 1 <= day <= spec_month_len(year as int, month as int) {
        Some((spec_days_before(year as int, month as int) + day) as u32)
    } else {
        None
    }
}

/// The days from 1970-01-01 to January 1 of year `y` (negative before).
pub open spec fn spec_year_start(y: int) -> int {
    let p = y - 1;
    365 * (y - 1970) + (p / 4 - p / 100 + p / 400) - 477
}

/// Calls `chrono::NaiveDate::checked_add_days` on 1970-01-01 and reads the
/// year, month and day of the result. The contract claims that the result is
/// the function of `day` named `spec_date_of_day`; that there is one exactly
/// when the date falls before year 262143, the first that chrono cannot
/// represent; that it is the date `day` days after 1970-01-01; and the
/// ranges that chrono documents for the year, the month and the day.
#[verifier::external_body]
pub(crate) fn date_of_day(day: u64) -> (r: Option<(i32, u32, u32)>)
    ensures
        r == spec_date_of_day(day),
        r is Some <==> day < spec_year_start(262143),
        r matches Some((y, m, d)) ==> spec_ordinal_of(y, m, d) matches Some(o)
            && spec_year_start(y as int) + o - 1 == day,
        r matches Some((y, m, d)) ==> -262143 <= y <= 262142 && 1 <= m <= 12 && 1 <= d <= 31,
{
    chrono::NaiveDate::from_ymd_opt(1970, 1, 1)
        .and_then(|e| e.checked_add_days(chrono::Days::new(day)))
        .map(
            |d|
                (
                    chrono::Datelike::year(&d),
                    chrono::Datelike::month(&d),
                    chrono::Datelike::day(&d),
                ),
        )
}

/// Calls `chrono::NaiveDate::from_ymd_opt` and reads the ordinal of the
/// date. The contract claims that the result is `spec_ordinal_of` of the
/// date: none where the date does not exist in the proleptic Gregorian
/// calendar or its year is out of chrono's range, else its day of the year,
/// between 1 and 366.
#[verifier::external_body]
fn ordinal_of(year: i32, month: u32, day: u32) -> (r: Option<u32>)
    ensures
        r == spec_ordinal_of(year, month, day),
        r matches Some(o) ==> 1 <= o <= 366 && -262143 <= year <= 262142,
{
    chrono::NaiveDate::from_ymd_opt(year, month, day).map(|d| chrono::Datelike::ordinal(&d))
}

/// A calendar date that exists, with its day of the year.
#[derive(Debug, Clone, Copy)]
pub struct CivilDate {
    year: i32,
    month: u32,
    day: u32,
    ordinal: u32,
}

impl CivilDate {
    /// The year of the date.
    pub closed spec fn spec_year(&self) -> i32 {
        self.year
    }

    /// The day of the year of the date.
    pub closed spec fn spec_ordinal(&self) -> u32 {
        self.ordinal
    }

    /// The month and day of the date.
    pub closed spec fn spec_month_day(&self) -> (u32, u32) {
        (self.month, self.day)
    }

    #[verifier::type_invariant]
    closed spec fn valid(&self) -> bool {
        &&& spec_ordinal_of(self.year, self.month, self.day) == Some(self.ordinal)
        &&& 1 <= self.ordinal <= 366
        &&& -262143 <= self.year <= 262142
    }

    /// The date `year-month-day`, if it exists.
    pub fn from_ymd(year: i32, month: u32, day: u32) -> (r: Option<CivilDate>)
        ensures
            match r {
                Some(c) => spec_ordinal_of(year, month, day) == Some(c.spec_ordinal())
                    && c.spec_year() == year && c.spec_month_day() == (month, day),
                None => spec_ordinal_of(year, month, day) is None,
            },
    {
        match ordinal_of(year, month, day) {
            Some(ordinal) => Some(CivilDate { year, month, day, ordinal }),
            None => None,
        }
    }

    /// The year of the date.
    pub fn year(&self) -> (y: i32)
        ensures
            y == self.spec_year(),
    {
        self.year
    }
}

/// The distance in days between two days of a year of `n` days, counted
/// the short way round the year.
pub open spec fn spec_day_distance(a: int, b: int, n: int) -> int {
    let d = if a >= b {
        a - b
    } else {
        b - a
    };
    if n - d < d {
        n - d
    } else {
        d
    }
}

/// Whether the date `y-m-d` lies within the window around `today`'s
/// anniversary, measured on the real calendar: in year `y`, against
/// today's month and day there; when today's month and day do not exist in
/// `y` (today is February 29), in today's year, against today.
pub open spec fn spec_in_window(today: CivilDate, y: i32, m: u32, d: u32) -> bool {
    let (tm, td) = today.spec_month_day();
    match spec_ordinal_of(y, tm, td) {
        Some(anniversary) => match (spec_ordinal_of(y, m, d), spec_ordinal_of(y, 12, 31)) {
            (Some(o), Some(n)) => spec_day_distance(o as int, anniversary as int, n as int) <= WINDOW_DAYS,
            _ => false,
        },
        None => match (spec_ordinal_of(today.spec_year(), m, d), spec_ordinal_of(today.spec_year(), 12, 31)) {
            (Some(o), Some(n)) => spec_day_distance(o as int, today.spec_ordinal() as int, n as int)
                <= WINDOW_DAYS,
            _ => false,
        },
    }
}

/// The prior year that an asset taken on `day` (days since 1970, negative
/// days counting as 0) is a memory of, for `today`: its date must be in
/// another year than today, and within the window around today's
/// anniversary in that year.
pub open spec fn spec_memory_year(today: CivilDate, day: i64) -> Option<i32> {
    let d: u64 = if day < 0 {
        0
    } else {
        day as u64
    };
    match spec_date_of_day(d) {
        None => None,
        Some((y, m, dd)) => if y == today.spec_year() {
            None
        } else if spec_in_window(today, y, m, dd) {
            Some(y)
        } else {
            None
        },
    }
}

/// The ids of the assets that are memories of year `y`, in input order.
pub open spec fn spec_ids_for_year(assets: Seq<(i64, i64)>, today: CivilDate, y: i32) -> Seq<i64>
    decreases assets.len(),
{
    if assets.len() == 0 {
        seq![]
    } else {
        let rest = spec_ids_for_year(assets.drop_last(), today, y);
        if spec_memory_year(today, assets.last().1) == Some(y) {
            rest.push(assets.last().0)
        } else {
            rest
        }
    }
}

/// Whether `s` is in ascending order.
pub open spec fn spec_ascending(s: Seq<i64>) -> bool {
    forall|i: int, j: int| 0 <= i < j < s.len() ==> s[i] <= s[j]
}

/// The distance in days between two days of a year of `n` days.
fn day_distance(a: u32, b: u32, n: u32) -> (r: i64)
    requires
        a <= 366,
        b <= 366,
        n <= 366,
    ensures
        r == spec_day_distance(a as int, b as int, n as int),
{
    let diff: i64 = a as i64 - b as i64;
    let delta: i64 = if diff < 0 {
        -diff
    } else {
        diff
    };
    let around: i64 = n as i64 - delta;
    if around < delta {
        around
    } else {
        delta
    }
}

fn in_window(today: &CivilDate, y: i32, m: u32, d: u32) -> (b: bool)
    ensures
        b == spec_in_window(*today, y, m, d),
{
    proof { use_type_invariant(today); }
    match ordinal_of(y, today.month, today.day) {
        Some(anniversary) => match (ordinal_of(y, m, d), ordinal_of(y, 12, 31)) {
            (Some(o), Some(n)) => day_distance(o, anniversary, n) <= WINDOW_DAYS,
            _ => false,
        },
        None => match (ordinal_of(today.year, m, d), ordinal_of(today.year, 12, 31)) {
            (Some(o), Some(n)) => day_distance(o, today.ordinal, n) <= WINDOW_DAYS,
            _ => false,
        },
    }
}

fn memory_year(today: &CivilDate, day: i64) -> (r: Option<i32>)
    ensures
        r == spec_memory_year(*today, day),
        r matches Some(y) ==> -262143 <= y <= 262142 && y != today.spec_year(),
{
    proof { use_type_invariant(today); }
    let d: u64 = if day < 0 {
        0
    } else {
        day as u64
    };
    match date_of_day(d) {
        None => None,
        Some((y, m, dd)) => {
            if y == today.year {
                None
            } else if in_window(today, y, m, dd) {
                Some(y)
            } else {
                None
            }
        },
    }
}

/// Put `x` into the ascending `v` at the first place after every element
/// not above it.
pub(crate) fn insert_ascending(v: &mut Vec<i64>, x: i64)
    requires
        spec_ascending(old(v)@),
    ensures
        spec_ascending(final(v)@),
        final(v)@.to_multiset() == old(v)@.to_multiset().insert(x),
        final(v)@.len() == old(v)@.len() + 1,
{
    let mut p: usize = 0;
    while p < v.len() && v[p] <= x
        invariant
            p <= v@.len(),
            forall|k: int| 0 <= k < p ==> v@[k] <= x,
        decreases v@.len() - p,
    {
        p = p + 1;
    }
    let ghost before = v@;
    v.insert(p, x);
    proof {
        to_multiset_insert(before, p as int, x);
        assert forall|i: int, j: int| 0 <= i < j < v@.len() implies v@[i] <= v@[j] by {
            if j < p {
            } else if j == p {
                assert(v@[i] == before[i]);
            } else if i < p {
                assert(v@[j] == before[j - 1]);
                assert(before[i] <= before[j - 1]);
            } else if i == p {
                assert(v@[j] == before[j - 1]);
                assert(before[p as int] > x);
                assert(before[p as int] <= before[j - 1]);
            } else {
                assert(v@[i] == before[i - 1] && v@[j] == before[j - 1]);
            }
        }
    }
}

/// The memory groups that each prior-year group of `groups` describes are
/// those of `assets`, for today at year `ty` and ordinal `to`.
pub open spec fn spec_groups_of(groups: Seq<MemoryGroup>, assets: Seq<(i64, i64)>, today: CivilDate) -> bool {
    let ty = today.spec_year();
    &&& forall|i: int, j: int| 0 <= i < j < groups.len() ==> groups[i].year > groups[j].year
    &&& forall|i: int|
        0 <= i < groups.len() ==> {
            let g = #[trigger] groups[i];
            &&& g.years_ago == ty - g.year
            &&& spec_ascending(g.asset_ids@)
            &&& g.asset_ids@.len() > 0
            &&& g.asset_ids@.to_multiset() == spec_ids_for_year(assets, today, g.year).to_multiset()
        }
    &&& forall|k: int|
        0 <= k < assets.len() ==> (#[trigger] spec_memory_year(today, assets[k].1) matches Some(
            y,
        ) ==> exists|i: int| 0 <= i < groups.len() && groups[i].year == y)
}

proof fn lemma_ids_push(assets: Seq<(i64, i64)>, a: (i64, i64), today: CivilDate, y: i32)
    ensures
        spec_ids_for_year(assets.push(a), today, y) == (if spec_memory_year(today, a.1) == Some(
            y,
        ) {
            spec_ids_for_year(assets, today, y).push(a.0)
        } else {
            spec_ids_for_year(assets, today, y)
        }),
{
    assert(assets.push(a).drop_last() =~= assets);
}

proof fn lemma_ids_empty_unless_matched(assets: Seq<(i64, i64)>, today: CivilDate, y: i32)
    requires
        forall|k: int| 0 <= k < assets.len() ==> spec_memory_year(today, #[trigger] assets[k].1) != Some(y),
    ensures
        spec_ids_for_year(assets, today, y).len() == 0,
    decreases assets.len(),
{
    if assets.len() > 0 {
        let r = assets.drop_last();
        assert forall|k: int| 0 <= k < r.len() implies spec_memory_year(today, #[trigger] r[k].1) != Some(y) by {
            assert(r[k] == assets[k]);
        }
        lemma_ids_empty_unless_matched(r, today, y);
        assert(assets.last() == assets[assets.len() - 1]);
    }
}

/// The memory groups for `today` from `(asset_id, day)` rows, `day` counted
/// in days since 1970-01-01. One group per prior year with a match, most
/// recent year first, each with its asset ids ascending. Today's own year is
/// never a memory.
pub fn on_this_day(today: &CivilDate, assets: &[(i64, i64)]) -> (out: Vec<MemoryGroup>)
    ensures
        spec_groups_of(out@, assets@, *today),
{
    proof { use_type_invariant(today); }
    let ghost tc = *today;
    let ghost ty = today.spec_year();
    let mut groups: Vec<MemoryGroup> = Vec::new();
    let mut i: usize = 0;
    while i < assets.len()
        invariant
            i <= assets@.len(),
            tc == *today,
            ty == today.spec_year(),
            -262143 <= ty <= 262142,
            spec_groups_of(groups@, assets@.subrange(0, i as int), tc),
        decreases assets@.len() - i,
    {
        let ghost pre = assets@.subrange(0, i as int);
        let ghost next = assets@.subrange(0, i + 1);
        assert(next =~= pre.push(assets@[i as int]));
        let (id, day) = assets[i];
        let my = memory_year(today, day);
        match my {
            None => {
                proof {
                    assert forall|y: i32| #[trigger] spec_ids_for_year(next, tc, y) == spec_ids_for_year(pre, tc, y) by {
                        lemma_ids_push(pre, assets@[i as int], tc, y);
                    }
                    assert forall|k: int| 0 <= k < next.len() implies (#[trigger] spec_memory_year(tc, next[k].1) matches Some(y) ==> exists|j: int| 0 <= j < groups@.len() && groups@[j].year == y) by {
                        if k < pre.len() {
                            assert(next[k] == pre[k]);
                        }
                    }
                }
            },
            Some(y) => {
                // Find the group of year `y`, or the place where it belongs.
                let mut p: usize = 0;
                while p < groups.len() && groups[p].year > y
                    invariant
                        p <= groups@.len(),
                        forall|k: int| 0 <= k < p ==> groups@[k].year > y,
                    decreases groups@.len() - p,
                {
                    p = p + 1;
                }
                let ghost old_groups = groups@;
                proof {
                    assert forall|z: i32| z != y implies #[trigger] spec_ids_for_year(next, tc, z) == spec_ids_for_year(pre, tc, z) by {
                        lemma_ids_push(pre, assets@[i as int], tc, z);
                    }
                    lemma_ids_push(pre, assets@[i as int], tc, y);
                    to_multiset_build(spec_ids_for_year(pre, tc, y), id);
                }
                if p < groups.len() && groups[p].year == y {
                    let mut g = groups.remove(p);
                    proof {
                        assert(g == old_groups[p as int]);
                    }
                    insert_ascending(&mut g.asset_ids, id);
                    groups.insert(p, g);
                    proof {
                        assert forall|a: int| 0 <= a < groups@.len() implies groups@[a].year == old_groups[a].year && (a != p ==> groups@[a] == old_groups[a]) by {
                        }
                        assert forall|k: int| 0 <= k < next.len() implies (#[trigger] spec_memory_year(tc, next[k].1) matches Some(z) ==> exists|j: int| 0 <= j < groups@.len() && groups@[j].year == z) by {
                            if k < pre.len() {
                                assert(next[k] == pre[k]);
                                if let Some(z) = spec_memory_year(tc, pre[k].1) {
                                    let j = choose|j: int| 0 <= j < old_groups.len() && old_groups[j].year == z;
                                    assert(groups@[j].year == z);
                                }
                            } else {
                                assert(groups@[p as int].year == y);
                            }
                        }
                    }
                } else {
                    let mut ids: Vec<i64> = Vec::new();
                    ids.push(id);
                    let ghost ids_view = ids@;
                    let g = MemoryGroup { year: y, years_ago: today.year - y, asset_ids: ids };
                    proof {
                        assert(ids_view =~= seq![id]);
                        assert(seq![id] =~= Seq::<i64>::empty().push(id));
                        to_multiset_build(Seq::<i64>::empty(), id);
                        assert forall|k: int| 0 <= k < pre.len() implies spec_memory_year(tc, #[trigger] pre[k].1) != Some(y) by {
                            if spec_memory_year(tc, pre[k].1) == Some(y) {
                                let j = choose|j: int| 0 <= j < old_groups.len() && old_groups[j].year == y;
                                if j < p {
                                } else {
                                    assert(j >= p);
                                    if j > p {
                                        assert(old_groups[p as int].year > old_groups[j].year);
                                    }
                                }
                            }
                        }
                        lemma_ids_empty_unless_matched(pre, tc, y);
                        assert(spec_ids_for_year(pre, tc, y) =~= Seq::<i64>::empty());
                    }
                    groups.insert(p, g);
                    proof {
                        assert forall|k: int| 0 <= k < next.len() implies (#[trigger] spec_memory_year(tc, next[k].1) matches Some(z) ==> exists|j: int| 0 <= j < groups@.len() && groups@[j].year == z) by {
                            if k < pre.len() {
                                assert(next[k] == pre[k]);
                                if let Some(z) = spec_memory_year(tc, pre[k].1) {
                                    let j = choose|j: int| 0 <= j < old_groups.len() && old_groups[j].year == z;
                                    if j < p {
                                        assert(groups@[j].year == z);
                                    } else {
                                        assert(groups@[j + 1].year == z);
                                    }
                                }
                            } else {
                                assert(groups@[p as int].year == y);
                            }
                        }
                        assert forall|a: int, b: int| 0 <= a < b < groups@.len() implies groups@[a].year > groups@[b].year by {
                            if b < p {
                            } else if b == p {
                                assert(groups@[a] == old_groups[a]);
                            } else if a < p {
                                assert(groups@[b] == old_groups[b - 1]);
                                if p < old_groups.len() {
                                    assert(old_groups[p as int].year <= y);
                                    assert(old_groups[p as int].year != y);
                                }
                            } else if a == p {
                                assert(groups@[b] == old_groups[b - 1]);
                                assert(old_groups[p as int].year < y);
                                if b - 1 > p {
                                    assert(old_groups[p as int].year > old_groups[b - 1].year);
                                }
                            } else {
                                assert(groups@[a] == old_groups[a - 1]);
                                assert(groups@[b] == old_groups[b - 1]);
                            }
                        }
                    }
                }
            },
        }
        i = i + 1;
    }
    assert(assets@.subrange(0, assets@.len() as int) =~= assets@);
    groups
}


proof fn lemma_ids_for_year_from(assets: Seq<(i64, i64)>, today: CivilDate, y: i32)
    ensures
        forall|k: int| 0 <= k < spec_ids_for_year(assets, today, y).len() ==> exists|a: int|
            0 <= a < assets.len() && assets[a].0 == #[trigger] spec_ids_for_year(assets, today, y)[k]
                && spec_memory_year(today, assets[a].1) == Some(y),
    decreases assets.len(),
{
    if assets.len() > 0 {
        let pre = assets.drop_last();
        lemma_ids_for_year_from(pre, today, y);
        let rest = spec_ids_for_year(pre, today, y);
        let all = spec_ids_for_year(assets, today, y);
        assert forall|k: int| 0 <= k < all.len() implies exists|a: int|
            0 <= a < assets.len() && assets[a].0 == #[trigger] all[k] && spec_memory_year(today, assets[a].1)
                == Some(y) by {
            if k < rest.len() {
                assert(all[k] == rest[k]);
                let a = choose|a: int| 0 <= a < pre.len() && pre[a].0 == rest[k] && spec_memory_year(today, pre[a].1) == Some(y);
                assert(assets[a] == pre[a]);
            } else {
                assert(all[k] == assets.last().0);
                assert(assets[assets.len() - 1] == assets.last());
            }
        }
    }
}

/// Law: the memory cards come newest year first, each of another year than
/// today's, with the number of years between, its asset ids ascending and
/// not empty; its assets are assets of the input whose
/// date falls in the card's year, within [`WINDOW_DAYS`] of today's month and
/// day; and no assets give no cards.
pub proof fn lemma_memory_cards(groups: Seq<MemoryGroup>, assets: Seq<(i64, i64)>, today: CivilDate)
    requires
        spec_groups_of(groups, assets, today),
    ensures
        forall|i: int| 0 <= i < groups.len() ==> (#[trigger] groups[i]).year != today.spec_year()
            && groups[i].years_ago == today.spec_year() - groups[i].year,
        forall|i: int, k: int| 0 <= i < groups.len() && 0 <= k < groups[i].asset_ids@.len() ==> exists|a: int|
            0 <= a < assets.len() && assets[a].0 == #[trigger] groups[i].asset_ids@[k] && spec_memory_year(
                today,
                assets[a].1,
            ) == Some(groups[i].year),
        assets.len() == 0 ==> groups.len() == 0,
        forall|i: int, j: int| 0 <= i < j < groups.len() ==> groups[i].year > groups[j].year,
        forall|i: int, a: int, b: int| 0 <= i < groups.len() && 0 <= a < b < groups[i].asset_ids@.len()
            ==> groups[i].asset_ids@[a] <= groups[i].asset_ids@[b],
        forall|i: int| 0 <= i < groups.len() ==> groups[i].asset_ids@.len() > 0,
{
    assert forall|i: int, k: int| 0 <= i < groups.len() && 0 <= k < groups[i].asset_ids@.len() implies exists|a: int|
        0 <= a < assets.len() && assets[a].0 == #[trigger] groups[i].asset_ids@[k] && spec_memory_year(
            today,
            assets[a].1,
        ) == Some(groups[i].year) by {
        let g = groups[i];
        let ids = spec_ids_for_year(assets, today, g.year);
        let x = g.asset_ids@[k];
        assert(g.asset_ids@.contains(x));
        vstd::seq_lib::to_multiset_contains(g.asset_ids@, x);
        vstd::seq_lib::to_multiset_contains(ids, x);
        let q = choose|q: int| 0 <= q < ids.len() && ids[q] == x;
        lemma_ids_for_year_from(assets, today, g.year);
        assert(ids[q] == x);
    }
    assert forall|i: int| 0 <= i < groups.len() implies (#[trigger] groups[i]).year != today.spec_year()
        && groups[i].years_ago == today.spec_year() - groups[i].year by {
        assert(0 < groups[i].asset_ids@.len());
        let a = choose|a: int| 0 <= a < assets.len() && assets[a].0 == groups[i].asset_ids@[0]
            && spec_memory_year(today, assets[a].1) == Some(groups[i].year);
    }
    if assets.len() == 0 && groups.len() > 0 {
        let a = choose|a: int| 0 <= a < assets.len() && assets[a].0 == groups[0].asset_ids@[0]
            && spec_memory_year(today, assets[a].1) == Some(groups[0].year);
    }
}

/// Law: the window of a memory. Two days of the year are the number of days
/// apart that is shorter going forward or backward around the year, and an
/// asset is a memory when its day is at most three days from today's month
/// and day, counted in the asset's own year.
pub proof fn lemma_window_rule(a: int, b: int, n: int)
    ensures
        WINDOW_DAYS == 3,
        a >= b ==> spec_day_distance(a, b, n) == if n - (a - b) < a - b { n - (a - b) } else { a - b },
        a < b ==> spec_day_distance(a, b, n) == if n - (b - a) < b - a { n - (b - a) } else { b - a },
        spec_day_distance(a, b, n) == spec_day_distance(b, a, n),
{
}

proof fn lemma_div_step(y: int, d: int)
    requires
        d > 0,
    ensures
        y / d - (y - 1) / d == if y % d == 0 { 1int } else { 0int },
{
    vstd::arithmetic::div_mod::lemma_fundamental_div_mod(y, d);
    vstd::arithmetic::div_mod::lemma_fundamental_div_mod(y - 1, d);
    let q = y / d;
    let r = y % d;
    let q1 = (y - 1) / d;
    let r1 = (y - 1) % d;
    if r == 0 {
        assert(q1 == q - 1 && r1 == d - 1) by {
            assert(y - 1 == (q - 1) * d + (d - 1)) by (nonlinear_arith)
                requires y == d * q + r, r == 0;
            vstd::arithmetic::div_mod::lemma_fundamental_div_mod_converse(y - 1, d, q - 1, d - 1);
        }
    } else {
        assert(q1 == q && r1 == r - 1) by {
            assert(0 < r < d);
            assert(y - 1 == d * q + (r - 1));
            assert(d * q == q * d) by (nonlinear_arith);
            vstd::arithmetic::div_mod::lemma_fundamental_div_mod_converse(y - 1, d, q, r - 1);
        }
    }
}

/// Law: the calendar. A year has 366 days when it is a leap year (divisible
/// by 4 and not by 100, or by 400) and 365 otherwise: its months add up to
/// that, and the next year starts that many days later; 1970-01-01 is day 0.
pub proof fn lemma_calendar_rule(y: int)
    ensures
        spec_is_leap(y) <==> ((y % 4 == 0 && y % 100 != 0) || y % 400 == 0),
        spec_days_before(y, 13) == if spec_is_leap(y) { 366int } else { 365int },
        spec_year_start(y + 1) - spec_year_start(y) == if spec_is_leap(y) { 366int } else { 365int },
        spec_year_start(1970) == 0,
        spec_month_len(y, 2) == if spec_is_leap(y) { 29int } else { 28int },
        spec_month_len(y, 4) == 30 && spec_month_len(y, 6) == 30 && spec_month_len(y, 9) == 30 && spec_month_len(y, 11) == 30,
        spec_month_len(y, 1) == 31 && spec_month_len(y, 3) == 31 && spec_month_len(y, 5) == 31 && spec_month_len(y, 7) == 31
            && spec_month_len(y, 8) == 31 && spec_month_len(y, 10) == 31 && spec_month_len(y, 12) == 31,
{
    reveal_with_fuel(spec_days_before, 13);
    lemma_div_step(y, 4);
    lemma_div_step(y, 100);
    lemma_div_step(y, 400);
    assert(y % 100 == 0 ==> y % 4 == 0) by {
        vstd::arithmetic::div_mod::lemma_fundamental_div_mod(y, 100);
        if y % 100 == 0 {
            assert(y == 100 * (y / 100));
            assert(y == (25 * (y / 100)) * 4) by (nonlinear_arith)
                requires y == 100 * (y / 100);
            vstd::arithmetic::div_mod::lemma_fundamental_div_mod_converse(y, 4, 25 * (y / 100), 0);
        }
    }
    assert(y % 400 == 0 ==> y % 100 == 0) by {
        vstd::arithmetic::div_mod::lemma_fundamental_div_mod(y, 400);
        if y % 400 == 0 {
            assert(y == 400 * (y / 400));
            assert(y == (4 * (y / 400)) * 100) by (nonlinear_arith)
                requires y == 400 * (y / 400);
            vstd::arithmetic::div_mod::lemma_fundamental_div_mod_converse(y, 100, 4 * (y / 400), 0);
        }
    }
}

/// Law: whether an asset dated `(y, m, d)` is in the window of `today`. In
/// its own year `y`, its day of the year is at most three days, going
/// around the year, from the day of the year of today's month and day; if
/// today's month and day do not exist in `y` (February 29), the asset's
/// month and day are placed in today's year and compared with today. An
/// asset is a memory of its year when that year is not today's.
pub proof fn lemma_in_window_rule(today: CivilDate, y: i32, m: u32, d: u32, day: i64)
    ensures
        spec_ordinal_of(y, today.spec_month_day().0, today.spec_month_day().1) matches Some(ann) ==> spec_in_window(
            today,
            y,
            m,
            d,
        ) == (spec_ordinal_of(y, m, d) is Some && spec_ordinal_of(y, 12, 31) is Some && spec_day_distance(
            spec_ordinal_of(y, m, d)->0 as int,
            ann as int,
            spec_ordinal_of(y, 12, 31)->0 as int,
        ) <= 3),
        spec_ordinal_of(y, today.spec_month_day().0, today.spec_month_day().1) is None ==> spec_in_window(today, y, m, d)
            == (spec_ordinal_of(today.spec_year(), m, d) is Some && spec_ordinal_of(today.spec_year(), 12, 31) is Some
            && spec_day_distance(
            spec_ordinal_of(today.spec_year(), m, d)->0 as int,
            today.spec_ordinal() as int,
            spec_ordinal_of(today.spec_year(), 12, 31)->0 as int,
        ) <= 3),
        spec_memory_year(today, day) == match spec_date_of_day(if day < 0 { 0u64 } else { day as u64 }) {
            None => None,
            Some((yy, mm, dd)) => if yy != today.spec_year() && spec_in_window(today, yy, mm, dd) {
                Some(yy)
            } else {
                None
            },
        },
{
}

} // verus!
