//! Smart albums: rule-compiled collections whose membership is
//! materialised on demand by the search executor.
//!
//! Rule semantics are a flat AND of the clauses that are set.

use vstd::prelude::*;

verus! {

/// A smart-album rule. Every clause that is set must match.
#[derive(Debug, Clone, Default, PartialEq, Eq)]
pub struct SmartRule {
    pub is_raw: Option<bool>,
    pub is_video: Option<bool>,
    pub is_screenshot: Option<bool>,
    pub is_live: Option<bool>,
    pub has_faces: Option<bool>,
    pub camera_make: Option<String>,
    pub lens: Option<String>,
    pub source_id: Option<i64>,
    pub person_ids: Vec<i64>,
    pub after_day: Option<i64>,
    pub before_day: Option<i64>,
}

/// A query for the search executor. Times are UNIX seconds.
#[derive(Debug, Clone, PartialEq, Eq)]
pub struct SearchQuery {
    pub text: Option<String>,
    pub person_ids: Vec<i64>,
    pub date_range: Option<(i64, i64)>,
    pub source_id: Option<i64>,
    pub has_faces: Option<bool>,
    pub is_video: Option<bool>,
    pub is_raw: Option<bool>,
    pub is_screenshot: Option<bool>,
    pub is_live: Option<bool>,
    pub camera_make: Option<String>,
    pub lens: Option<String>,
    pub limit: u32,
    pub hidden_vault_unlocked: bool,
}

/// Cap of a materialised smart album's membership.
pub const SMART_RULE_LIMIT: u32 = 10000;

/// `i64::MAX / 86_400`: the latest day whose midnight fits in an `i64`.
pub const LAST_DAY: i64 = 106751991167300;

/// `i64::MIN / 86_400` (division truncating toward zero).
pub const FIRST_DAY: i64 = -106751991167300;

/// The earliest UNIX time `chrono` represents: -262143-01-01T00:00:00.
pub const FIRST_TIMESTAMP: i64 = -8334601228800;

/// The latest UNIX time `chrono` represents: 262142-12-31T23:59:59.
pub const LAST_TIMESTAMP: i64 = 8210266876799;

/// Whether `chrono` can represent the UNIX time `secs`: its dates run from
/// January 1 of year -262143 to December 31 of year 262142.
pub open spec fn spec_timestamp_in_range(secs: i64) -> bool {
    FIRST_TIMESTAMP <= secs <= LAST_TIMESTAMP
}

/// Calls `chrono::DateTime::<Utc>::from_timestamp(secs, 0)`. The contract
/// claims that it succeeds exactly when `secs` lies between the first and
/// the last time chrono represents (its source checks the day against
/// `NaiveDate::MIN` and `NaiveDate::MAX`), and that the time it makes has
/// the timestamp `secs`.
#[verifier::external_body]
pub(crate) fn timestamp_checked(secs: i64) -> (r: Option<i64>)
    ensures
        r is Some <==> spec_timestamp_in_range(secs),
        r matches Some(t) ==> t == secs,
{
    chrono::DateTime::from_timestamp(secs, 0).map(|d| d.timestamp())
}

/// `day * 86_400`, saturated to the range of `i64`.
pub open spec fn spec_day_secs(day: i64) -> i64 {
    if day * 86400 > i64::MAX {
        i64::MAX
    } else if day * 86400 < i64::MIN {
        i64::MIN
    } else {
        (day * 86400) as i64
    }
}

/// The start of `day` as a UNIX time, clamped to the times chrono
/// represents: a day before the first gives the first time, a day after the
/// last gives the last.
pub open spec fn spec_day_to_secs(day: i64) -> i64 {
    let s = spec_day_secs(day);
    if s < FIRST_TIMESTAMP {
        FIRST_TIMESTAMP
    } else if s > LAST_TIMESTAMP {
        LAST_TIMESTAMP
    } else {
        s
    }
}

fn day_to_secs(day: i64) -> (t: i64)
    ensures
        t == spec_day_to_secs(day),
{
    let secs = match day.checked_mul(86400) {
        Some(x) => x,
        None => if day > 0 {
            i64::MAX
        } else {
            i64::MIN
        },
    };
    assert(secs == spec_day_secs(day));
    match timestamp_checked(secs) {
        Some(t) => t,
        None => if secs < FIRST_TIMESTAMP {
            FIRST_TIMESTAMP
        } else {
            LAST_TIMESTAMP
        },
    }
}

/// The date range a rule compiles to; a half-open rule is widened to the
/// extreme day on its open side, so the range runs from the first or to the
/// last time chrono represents.
pub open spec fn spec_date_range(after: Option<i64>, before: Option<i64>) -> Option<(i64, i64)> {
    match (after, before) {
        (Some(a), Some(b)) => Some((spec_day_to_secs(a), spec_day_to_secs(b))),
        (Some(a), None) => Some((spec_day_to_secs(a), spec_day_to_secs(LAST_DAY))),
        (None, Some(b)) => Some((spec_day_to_secs(FIRST_DAY), spec_day_to_secs(b))),
        (None, None) => None,
    }
}

impl SmartRule {
    /// Whether the query `q` is the compilation of this rule.
    pub open spec fn spec_compiles_to(&self, q: SearchQuery) -> bool {
        &&& q.text is None
        &&& q.person_ids@ == self.person_ids@
        &&& q.date_range == spec_date_range(self.after_day, self.before_day)
        &&& q.source_id == self.source_id
        &&& q.has_faces == self.has_faces
        &&& q.is_video == self.is_video
        &&& q.is_raw == self.is_raw
        &&& q.is_screenshot == self.is_screenshot
        &&& q.is_live == self.is_live
        &&& q.camera_make == self.camera_make
        &&& q.lens == self.lens
        &&& q.limit == SMART_RULE_LIMIT
        &&& !q.hidden_vault_unlocked
    }

    /// Convert to a query for the search executor. Smart albums never use
    /// text (CLIP) search; a half-open date rule is widened on its open
    /// side, since the executor needs both ends.
    pub fn compile(&self) -> (q: SearchQuery)
        ensures
            self.spec_compiles_to(q),
            q.is_raw == self.is_raw,
            q.is_video == self.is_video,
            q.is_screenshot == self.is_screenshot,
            q.is_live == self.is_live,
            q.has_faces == self.has_faces,
            q.camera_make == self.camera_make,
            q.lens == self.lens,
            q.source_id == self.source_id,
            q.person_ids@ == self.person_ids@,
            q.text is None,
            !q.hidden_vault_unlocked,
            q.limit == 10000,
            (q.date_range is None) == (self.after_day is None && self.before_day is None),
    {
        let date_range = match (self.after_day, self.before_day) {
            (Some(a), Some(b)) => Some((day_to_secs(a), day_to_secs(b))),
            (Some(a), None) => Some((day_to_secs(a), day_to_secs(LAST_DAY))),
            (None, Some(b)) => Some((day_to_secs(FIRST_DAY), day_to_secs(b))),
            (None, None) => None,
        };
        SearchQuery {
            text: None,
            person_ids: self.person_ids.clone(),
            date_range,
            source_id: self.source_id,
            has_faces: self.has_faces,
            is_video: self.is_video,
            is_raw: self.is_raw,
            is_screenshot: self.is_screenshot,
            is_live: self.is_live,
            camera_make: self.camera_make.clone(),
            lens: self.lens.clone(),
            limit: SMART_RULE_LIMIT,
            hidden_vault_unlocked: false,
        }
    }

    /// Whether no clause is set.
    pub open spec fn spec_is_empty(&self) -> bool {
        &&& self.is_raw is None
        &&& self.is_video is None
        &&& self.is_screenshot is None
        &&& self.is_live is None
        &&& self.has_faces is None
        &&& self.camera_make is None
        &&& self.lens is None
        &&& self.source_id is None
        &&& self.person_ids@.len() == 0
        &&& self.after_day is None
        &&& self.before_day is None
    }

    /// Whether no clause is set.
    pub fn is_empty(&self) -> (b: bool)
        ensures
            b == self.spec_is_empty(),
    {
        self.is_raw.is_none() && self.is_video.is_none() && self.is_screenshot.is_none()
            && self.is_live.is_none() && self.has_faces.is_none() && self.camera_make.is_none()
            && self.lens.is_none() && self.source_id.is_none() && self.person_ids.len() == 0
            && self.after_day.is_none() && self.before_day.is_none()
    }
}

/// Law: an empty rule compiles to a query with no text and no date range.
pub proof fn lemma_empty_rule_is_no_op(r: SmartRule, q: SearchQuery)
    requires
        r.spec_is_empty(),
        r.spec_compiles_to(q),
    ensures
        q.text is None,
        q.date_range is None,
{
}

/// Later days start no earlier.
proof fn lemma_day_to_secs_monotone(a: i64, b: i64)
    requires
        a <= b,
    ensures
        spec_day_to_secs(a) <= spec_day_to_secs(b),
{
    assert(a * 86400 <= b * 86400) by (nonlinear_arith)
        requires a <= b;
}

/// Law: a compiled date range never ends before it starts, when the rule's
/// days are in order; a half-open rule's range starts at its first day or
/// ends at its last, and reaches from there to the far end.
pub proof fn lemma_date_range_ordered(r: SmartRule, q: SearchQuery)
    requires
        r.spec_compiles_to(q),
        r.after_day is Some && r.before_day is Some ==> r.after_day->0 <= r.before_day->0,
    ensures
        q.date_range matches Some((s, e)) ==> s <= e,
        r.after_day is Some && r.before_day is None ==> q.date_range == Some(
            (spec_day_to_secs(r.after_day->0), LAST_TIMESTAMP),
        ),
        r.after_day is None && r.before_day is Some ==> q.date_range == Some(
            (FIRST_TIMESTAMP, spec_day_to_secs(r.before_day->0)),
        ),
{
    match (r.after_day, r.before_day) {
        (Some(a), Some(b)) => lemma_day_to_secs_monotone(a, b),
        (Some(a), None) => {
            assert(LAST_DAY * 86400 > LAST_TIMESTAMP);
        },
        (None, Some(b)) => {
            assert(FIRST_DAY * 86400 < FIRST_TIMESTAMP);
        },
        (None, None) => {},
    }
}

/// Law: compiling copies every filter clause of a rule to the field of the
/// same name of the query (raw, video, screenshot, live, faces, camera
/// make, lens, source, people), never asks for text search or the hidden
/// vault, caps the result at ten thousand, and has a date range exactly
/// when the rule sets a day: a set day starts at `day * 86 400` where
/// chrono can represent that time, an unset side reaches the first or last
/// time chrono represents, and both ends lie in chrono's range.
pub proof fn lemma_compile_copies_clauses(r: SmartRule, q: SearchQuery)
    requires
        r.spec_compiles_to(q),
    ensures
        q.is_raw == r.is_raw,
        q.is_video == r.is_video,
        q.is_screenshot == r.is_screenshot,
        q.is_live == r.is_live,
        q.has_faces == r.has_faces,
        q.camera_make == r.camera_make,
        q.lens == r.lens,
        q.source_id == r.source_id,
        q.person_ids@ == r.person_ids@,
        q.text is None,
        !q.hidden_vault_unlocked,
        q.limit == 10000,
        (q.date_range is None) == (r.after_day is None && r.before_day is None),
        r.after_day is Some && FIRST_TIMESTAMP <= r.after_day->0 * 86400 <= LAST_TIMESTAMP ==> q.date_range is Some
            && (q.date_range->0).0 == r.after_day->0 * 86400,
        r.before_day is Some && FIRST_TIMESTAMP <= r.before_day->0 * 86400 <= LAST_TIMESTAMP ==> q.date_range is Some
            && (q.date_range->0).1 == r.before_day->0 * 86400,
        r.after_day is Some && r.before_day is None ==> q.date_range is Some && (q.date_range->0).1 == LAST_TIMESTAMP,
        r.after_day is None && r.before_day is Some ==> q.date_range is Some && (q.date_range->0).0 == FIRST_TIMESTAMP,
        q.date_range matches Some((a, b)) ==> FIRST_TIMESTAMP <= a <= LAST_TIMESTAMP && FIRST_TIMESTAMP <= b
            <= LAST_TIMESTAMP,
{
    assert(LAST_DAY * 86400 > LAST_TIMESTAMP);
    assert(FIRST_DAY * 86400 < FIRST_TIMESTAMP);
}

} // verus!
