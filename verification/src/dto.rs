//! Values exchanged with the frontend, and the small rules that build them:
//! the first timeline cursor, the cursor after a page, the progress state of
//! a running ingest, and the mapping between a smart-album rule and its view.

use crate::analytics::smart_albums::SmartRule;
use vstd::prelude::*;

verus! {

/// The session that an unlock opens.
#[derive(Debug, Clone, PartialEq, Eq)]
pub struct SessionHandle {
    pub user_id: i64,
    pub username: String,
    pub default_collection_id: i64,
    pub hidden_unlocked: bool,
}

/// One registered import source, decrypted for display.
#[derive(Debug, Clone, PartialEq, Eq)]
pub struct SourceView {
    pub id: i64,
    pub name: String,
    pub root_path: String,
    pub adapter_kind: String,
    pub linked_only: bool,
    pub bytes_total: i64,
    pub file_count: i64,
    pub imported_at: i64,
}

/// Where an ingest run stands.
#[derive(Debug, Clone, PartialEq, Eq)]
pub enum IngestState {
    Idle,
    Running { files_processed: u64, files_total: u64, current: Option<String> },
    Done { inserted: u64, deduped: u64, skipped: u64, errors: u64 },
    Failed { message: String },
}

/// The ingest state of one source.
#[derive(Debug, Clone, PartialEq, Eq)]
pub struct IngestStatus {
    pub source_id: i64,
    pub state: IngestState,
}

/// Keyset cursor of the timeline: entries strictly before `(day, id)` in
/// descending order come next.
#[derive(Debug, Clone, Copy, PartialEq, Eq)]
pub struct TimelineCursor {
    pub day: i64,
    pub id: i64,
}

/// One timeline entry.
#[derive(Debug, Clone, PartialEq, Eq)]
pub struct TimelineEntryView {
    pub id: i64,
    pub taken_at_utc_day: Option<i64>,
    pub mime: String,
    pub is_video: bool,
    pub is_live: bool,
    pub is_raw: bool,
}

/// A page of the timeline and the cursor of the page after it.
#[derive(Debug, Clone, PartialEq, Eq)]
pub struct TimelinePage {
    pub entries: Vec<TimelineEntryView>,
    pub next_cursor: Option<TimelineCursor>,
}

/// One album, decrypted for display.
#[derive(Debug, Clone, PartialEq, Eq)]
pub struct AlbumView {
    pub id: i64,
    pub name: String,
    pub kind: String,
    pub member_count: i64,
    pub has_password: bool,
    pub unlocked: bool,
    pub hidden: bool,
}

/// Options of an album export.
#[derive(Debug, Clone, Copy, PartialEq, Eq)]
pub struct ExportOptions {
    pub include_xmp: bool,
}

/// What an album export wrote.
#[derive(Debug, Clone, Copy, PartialEq, Eq)]
pub struct ExportReport {
    pub files_written: u64,
    pub bytes_written: u64,
    pub xmp_written: u64,
    pub skipped: u64,
}

/// One person cluster.
#[derive(Debug, Clone, PartialEq, Eq)]
pub struct PersonView {
    pub id: i64,
    pub name: Option<String>,
    pub hidden: bool,
    pub face_count: i64,
    pub cover_asset_id: Option<i64>,
}

/// A search request from the frontend.
#[derive(Debug, Clone, PartialEq, Eq)]
pub struct SearchRequest {
    pub text: Option<String>,
    pub person_ids: Vec<i64>,
    pub after_day: Option<i64>,
    pub before_day: Option<i64>,
    pub source_id: Option<i64>,
    pub has_faces: Option<bool>,
    pub is_video: Option<bool>,
    pub is_raw: Option<bool>,
    pub is_screenshot: Option<bool>,
    pub is_live: Option<bool>,
    pub camera_make: Option<String>,
    pub lens: Option<String>,
    pub limit: u32,
}

/// A cluster of near-duplicate assets.
#[derive(Debug, Clone, PartialEq, Eq)]
pub struct NearDupCluster {
    pub cluster_id: i64,
    pub members: Vec<NearDupMember>,
}

/// One member of a near-duplicate cluster.
#[derive(Debug, Clone, Copy, PartialEq, Eq)]
pub struct NearDupMember {
    pub asset_id: i64,
    pub is_best: bool,
}

/// State of the on-device ML runtime and its job queue.
#[derive(Debug, Clone, PartialEq, Eq)]
pub struct MlStatus {
    pub models_available: bool,
    pub runtime_loaded: bool,
    pub execution_provider: String,
    pub pending: i64,
    pub running: i64,
    pub done: i64,
    pub failed: i64,
}

/// A pairing ticket to hand to another device.
#[derive(Debug, Clone, PartialEq, Eq)]
pub struct PairingTicketView {
    pub base32: String,
    pub my_node_id_hex: String,
    pub created_at: i64,
}

/// A peer accepted from its ticket.
#[derive(Debug, Clone, PartialEq, Eq)]
pub struct PeerAcceptedView {
    pub node_id_hex: String,
    pub identity_pub_hex: String,
    pub relay_url: Option<String>,
    pub added_at: i64,
}

/// The photos of one past year on this day.
#[derive(Debug, Clone, PartialEq, Eq)]
pub struct MemoryGroupView {
    pub year: i32,
    pub years_ago: i32,
    pub asset_ids: Vec<i64>,
}

/// A detected trip.
#[derive(Debug, Clone, PartialEq, Eq)]
pub struct TripView {
    pub id: i64,
    pub name: String,
    pub member_count: i64,
    pub created_at: i64,
}

/// A peer an album was shared with.
#[derive(Debug, Clone, PartialEq, Eq)]
pub struct ShareRecipientView {
    pub peer_node_id_hex: String,
    pub peer_identity_pub_hex: String,
    pub relay_url: Option<String>,
    pub shared_at: i64,
}

/// An album shared with this device.
#[derive(Debug, Clone, PartialEq, Eq)]
pub struct IncomingShareView {
    pub collection_id: i64,
    pub namespace_id_hex: String,
    pub sender_identity_pub_hex: String,
    pub state: String,
    pub album_name: Option<String>,
}

/// An invitation to a shared album.
#[derive(Debug, Clone, PartialEq, Eq)]
pub struct ShareInviteView {
    pub namespace_ticket_base32: String,
    pub collection_id: i64,
    pub asset_count: u32,
}

/// A user of this device, before unlock.
#[derive(Debug, Clone, PartialEq, Eq)]
pub struct UserSummaryView {
    pub user_id: i64,
    pub identity_pub_hex: String,
    pub created_at: i64,
}

/// A smart-album rule as the frontend authors it; field for field a
/// [`SmartRule`].
#[derive(Debug, Clone, PartialEq, Eq)]
pub struct SmartRuleView {
    pub is_raw: Option<bool>,
    pub is_video: Option<bool>,
    pub is_screenshot: Option<bool>,
    pub is_live: Option<bool>,
    pub has_faces: Option<bool>,
    pub camera_make: Option<String>,
    pub lens: Option<String>,
    pub source_id: Option<i64>,
    pub person_ids: Vec<i64>,
    pub after_day: Option<i64>,
    pub before_day: Option<i64>,
}

/// A smart album and the rule that fills it.
#[derive(Debug, Clone, PartialEq, Eq)]
pub struct SmartAlbumView {
    pub id: i64,
    pub name: String,
    pub rule: SmartRuleView,
    pub member_count: i64,
    pub snapshot_at: Option<i64>,
    pub created_at: i64,
}

/// What a reindex of the ML queue enqueued.
#[derive(Debug, Clone, Copy, PartialEq, Eq)]
pub struct MlReindexReport {
    pub embed_queued: u32,
    pub detect_queued: u32,
    pub assets_touched: u32,
}

/// Entries of a timeline or album page when the frontend asks for no
/// particular number.
pub const DEFAULT_PAGE_LIMIT: u32 = 120;

/// Most entries a page ever holds.
pub const MAX_PAGE_LIMIT: u32 = 500;

/// The number of entries a page holds: what was asked for (or the default),
/// capped at [`MAX_PAGE_LIMIT`].
pub fn page_limit(requested: Option<u32>) -> (n: u32)
    ensures
        n == (match requested {
            Some(r) => if r < MAX_PAGE_LIMIT { r } else { MAX_PAGE_LIMIT },
            None => DEFAULT_PAGE_LIMIT,
        }),
{
    let r = match requested {
        Some(r) => r,
        None => DEFAULT_PAGE_LIMIT,
    };
    if r < MAX_PAGE_LIMIT {
        r
    } else {
        MAX_PAGE_LIMIT
    }
}

impl TimelineCursor {
    /// The cursor of the first page: before every entry.
    pub fn start() -> (c: Self)
        ensures
            c.day == i64::MAX,
            c.id == i64::MAX,
    {
        TimelineCursor { day: i64::MAX, id: i64::MAX }
    }
}

/// The cursor after a page: at its last entry, an undated entry counting as
/// day 0; none for an empty page.
pub open spec fn spec_next_cursor(entries: Seq<TimelineEntryView>) -> Option<TimelineCursor> {
    if entries.len() == 0 {
        None
    } else {
        let last = entries.last();
        Some(
            TimelineCursor {
                day: match last.taken_at_utc_day {
                    Some(d) => d,
                    None => 0,
                },
                id: last.id,
            },
        )
    }
}

/// The cursor that follows a page of entries.
pub fn next_cursor(entries: &[TimelineEntryView]) -> (c: Option<TimelineCursor>)
    ensures
        c == spec_next_cursor(entries@),
{
    if entries.len() == 0 {
        None
    } else {
        let last = &entries[entries.len() - 1];
        let day = match last.taken_at_utc_day {
            Some(d) => d,
            None => 0,
        };
        Some(TimelineCursor { day, id: last.id })
    }
}

impl TimelinePage {
    /// A page of entries, with the cursor after its last entry.
    pub fn from_entries(entries: Vec<TimelineEntryView>) -> (p: Self)
        ensures
            p.entries@ == entries@,
            p.next_cursor == spec_next_cursor(entries@),
    {
        let next_cursor = next_cursor(entries.as_slice());
        TimelinePage { entries, next_cursor }
    }
}

impl IngestStatus {
    /// The status of a source whose ingest has just been started: running,
    /// with nothing processed yet.
    pub fn started(source_id: i64) -> (s: Self)
        ensures
            s.source_id == source_id,
            s.state == (IngestState::Running { files_processed: 0, files_total: 0, current: None }),
    {
        IngestStatus {
            source_id,
            state: IngestState::Running { files_processed: 0, files_total: 0, current: None },
        }
    }

    /// A file began: the run now stands at that file.
    pub fn file_started(&mut self, path: String, index: u64, total: u64)
        ensures
            final(self).source_id == old(self).source_id,
            final(self).state == (IngestState::Running {
                files_processed: index,
                files_total: total,
                current: Some(path),
            }),
    {
        self.state = IngestState::Running { files_processed: index, files_total: total, current: Some(path) };
    }

    /// The run finished with these counts.
    pub fn finished(&mut self, inserted: u64, deduped: u64, skipped: u64, errors: u64)
        ensures
            final(self).source_id == old(self).source_id,
            final(self).state == (IngestState::Done { inserted, deduped, skipped, errors }),
    {
        self.state = IngestState::Done { inserted, deduped, skipped, errors };
    }

    /// The run failed with this message.
    pub fn failed(&mut self, message: String)
        ensures
            final(self).source_id == old(self).source_id,
            final(self).state == (IngestState::Failed { message }),
    {
        self.state = IngestState::Failed { message };
    }
}

/// The rule that a view describes, field for field.
pub open spec fn spec_from_view(v: SmartRuleView) -> SmartRule {
    SmartRule {
        is_raw: v.is_raw,
        is_video: v.is_video,
        is_screenshot: v.is_screenshot,
        is_live: v.is_live,
        has_faces: v.has_faces,
        camera_make: v.camera_make,
        lens: v.lens,
        source_id: v.source_id,
        person_ids: v.person_ids,
        after_day: v.after_day,
        before_day: v.before_day,
    }
}

/// The view of a rule, field for field.
pub open spec fn spec_to_view(r: SmartRule) -> SmartRuleView {
    SmartRuleView {
        is_raw: r.is_raw,
        is_video: r.is_video,
        is_screenshot: r.is_screenshot,
        is_live: r.is_live,
        has_faces: r.has_faces,
        camera_make: r.camera_make,
        lens: r.lens,
        source_id: r.source_id,
        person_ids: r.person_ids,
        after_day: r.after_day,
        before_day: r.before_day,
    }
}

/// The rule that a view describes.
pub fn from_view(v: SmartRuleView) -> (r: SmartRule)
    ensures
        r == spec_from_view(v),
{
    SmartRule {
        is_raw: v.is_raw,
        is_video: v.is_video,
        is_screenshot: v.is_screenshot,
        is_live: v.is_live,
        has_faces: v.has_faces,
        camera_make: v.camera_make,
        lens: v.lens,
        source_id: v.source_id,
        person_ids: v.person_ids,
        after_day: v.after_day,
        before_day: v.before_day,
    }
}

/// The view of a rule.
pub fn to_view(r: SmartRule) -> (v: SmartRuleView)
    ensures
        v == spec_to_view(r),
{
    SmartRuleView {
        is_raw: r.is_raw,
        is_video: r.is_video,
        is_screenshot: r.is_screenshot,
        is_live: r.is_live,
        has_faces: r.has_faces,
        camera_make: r.camera_make,
        lens: r.lens,
        source_id: r.source_id,
        person_ids: r.person_ids,
        after_day: r.after_day,
        before_day: r.before_day,
    }
}

/// A rule comes back unchanged from its view, and a view from its rule.
pub proof fn lemma_rule_view_round_trip(r: SmartRule, v: SmartRuleView)
    ensures
        spec_from_view(spec_to_view(r)) == r,
        spec_to_view(spec_from_view(v)) == v,
{
}

/// Law: a rule and its view carry each clause under the same name, in both
/// directions (raw, video, screenshot, live, faces, camera make, lens,
/// source, people, first and last day).
pub proof fn lemma_view_fields(r: SmartRule, v: SmartRuleView)
    ensures
        spec_to_view(r).is_raw == r.is_raw,
        spec_to_view(r).is_video == r.is_video,
        spec_to_view(r).is_screenshot == r.is_screenshot,
        spec_to_view(r).is_live == r.is_live,
        spec_to_view(r).has_faces == r.has_faces,
        spec_to_view(r).camera_make == r.camera_make,
        spec_to_view(r).lens == r.lens,
        spec_to_view(r).source_id == r.source_id,
        spec_to_view(r).person_ids == r.person_ids,
        spec_to_view(r).after_day == r.after_day,
        spec_to_view(r).before_day == r.before_day,
        spec_from_view(v).is_raw == v.is_raw,
        spec_from_view(v).is_video == v.is_video,
        spec_from_view(v).is_screenshot == v.is_screenshot,
        spec_from_view(v).is_live == v.is_live,
        spec_from_view(v).has_faces == v.has_faces,
        spec_from_view(v).camera_make == v.camera_make,
        spec_from_view(v).lens == v.lens,
        spec_from_view(v).source_id == v.source_id,
        spec_from_view(v).person_ids == v.person_ids,
        spec_from_view(v).after_day == v.after_day,
        spec_from_view(v).before_day == v.before_day,
{
}

/// Law: a page holds 120 entries unless the frontend asks otherwise, and
/// never more than 500; the cursor after a page points at its last entry,
/// an undated one counting as day 0.
pub proof fn lemma_page_rules(entries: Seq<TimelineEntryView>)
    ensures
        DEFAULT_PAGE_LIMIT == 120,
        MAX_PAGE_LIMIT == 500,
        entries.len() == 0 ==> spec_next_cursor(entries) is None,
        entries.len() > 0 ==> spec_next_cursor(entries) == Some(
            TimelineCursor {
                day: match entries[entries.len() - 1].taken_at_utc_day {
                    Some(d) => d,
                    None => 0,
                },
                id: entries[entries.len() - 1].id,
            },
        ),
{
}

} // verus!
