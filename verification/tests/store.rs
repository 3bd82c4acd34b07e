use mv_core::analytics::smart_albums::SmartRule;
use mv_core::cas::{gc_plan, is_shard_dir_name, BlobEntry, CasStore};
use mv_core::db::{
    fixed_16, fixed_32, insert_result, is_tolerated_migration_error, migration_steps, InsertResult,
    CURRENT_VERSION,
};
use mv_core::dto::{
    from_view, next_cursor, page_limit, to_view, IngestState, IngestStatus, SmartRuleView,
    TimelineCursor, DEFAULT_PAGE_LIMIT, MAX_PAGE_LIMIT,
    TimelineEntryView, TimelinePage,
};
use mv_core::geocode::Geocoder;
use mv_core::paths::vault_root;
use mv_core::tiles::{
    cache_path, eviction_order, tile_key, upstream_for, Eviction, EVICTION_TARGET_BYTES, MAX_CACHE_BYTES,
};

// ---------------------------------------------------------------- cas

#[test]
fn blob_paths_shard_by_the_first_two_hex_digits() {
    let s = CasStore::at("/vault");
    assert_eq!(s.root_path(), "/vault");
    assert_eq!(s.cas_dir(), "/vault/cas");
    assert_eq!(s.tmp_dir(), "/vault/cas/tmp");
    assert_eq!(s.trash_dir(), "/vault/cas/trash");
    assert_eq!(s.blob_path("abcdef"), "/vault/cas/ab/abcdef");
}

#[test]
fn shard_dirs_are_two_hex_digits() {
    assert!(is_shard_dir_name("ab"));
    assert!(is_shard_dir_name("0F"));
    assert!(!is_shard_dir_name("tmp"));
    assert!(!is_shard_dir_name("trash"));
    assert!(!is_shard_dir_name("g1"));
    assert!(!is_shard_dir_name("a"));
}

fn entry(shard: &str, name: &str, bytes: u64) -> BlobEntry {
    BlobEntry { shard: shard.into(), name: name.into(), bytes }
}

#[test]
fn gc_moves_orphans_to_trash_with_manifest() {
    let entries = vec![entry("aa", "aa01", 5), entry("bb", "bb02", 7), entry("aa", "aa03", 11)];
    let live = vec!["aa01".to_string()];
    let plan = gc_plan(&entries, &live);
    assert_eq!(plan.kept, 1);
    assert_eq!(plan.trash, vec![entry("bb", "bb02", 7), entry("aa", "aa03", 11)]);
    assert_eq!(plan.bytes_trashed, 18);
    assert_eq!(plan.manifest, "bb/bb02\naa/aa03\n");
    let report = plan.report("/vault/cas/trash/t/MANIFEST.txt".into());
    assert_eq!(report.kept, 1);
    assert_eq!(report.moved_to_trash, 2);
    assert_eq!(report.bytes_trashed, 18);
    assert_eq!(report.trash_manifest.as_deref(), Some("/vault/cas/trash/t/MANIFEST.txt"));
}

#[test]
fn gc_with_everything_live_moves_nothing() {
    let entries = vec![entry("aa", "aa01", 5)];
    let plan = gc_plan(&entries, &["aa01".to_string()]);
    assert!(plan.trash.is_empty());
    assert_eq!(plan.manifest, "");
    assert_eq!(plan.report("m".into()).trash_manifest, None);
}

// ---------------------------------------------------------------- db

#[test]
fn insert_outcome_follows_affected_rows() {
    assert_eq!(insert_result(1, 9), InsertResult::Inserted(9));
    assert_eq!(insert_result(0, 9), InsertResult::Existing(9));
}

#[test]
fn fixed_width_columns() {
    assert_eq!(fixed_16(&[1u8; 16]), Some([1u8; 16]));
    assert_eq!(fixed_16(&[1u8; 15]), None);
    assert_eq!(fixed_32(&[2u8; 32]), Some([2u8; 32]));
    assert_eq!(fixed_32(&[2u8; 16]), None);
}

// ---------------------------------------------------------------- dto

fn entry_view(id: i64, day: Option<i64>) -> TimelineEntryView {
    TimelineEntryView {
        id,
        taken_at_utc_day: day,
        mime: "image/jpeg".into(),
        is_video: false,
        is_live: false,
        is_raw: false,
    }
}

#[test]
fn timeline_starts_after_everything() {
    let c = TimelineCursor::start();
    assert_eq!(c.day, i64::MAX);
    assert_eq!(c.id, i64::MAX);
}

#[test]
fn next_cursor_is_the_last_entry() {
    assert_eq!(next_cursor(&[]), None);
    let entries = vec![entry_view(5, Some(100)), entry_view(3, None)];
    assert_eq!(next_cursor(&entries), Some(TimelineCursor { day: 0, id: 3 }));
    let page = TimelinePage::from_entries(vec![entry_view(8, Some(42))]);
    assert_eq!(page.next_cursor, Some(TimelineCursor { day: 42, id: 8 }));
    assert_eq!(page.entries.len(), 1);
}

#[test]
fn ingest_status_follows_progress() {
    let mut s = IngestStatus::started(4);
    assert_eq!(
        s.state,
        IngestState::Running { files_processed: 0, files_total: 0, current: None }
    );
    s.file_started("/p/a.jpg".into(), 1, 3);
    assert_eq!(
        s.state,
        IngestState::Running { files_processed: 1, files_total: 3, current: Some("/p/a.jpg".into()) }
    );
    s.finished(2, 1, 0, 0);
    assert_eq!(s.state, IngestState::Done { inserted: 2, deduped: 1, skipped: 0, errors: 0 });
    s.failed("ingest: gone".into());
    assert_eq!(s.state, IngestState::Failed { message: "ingest: gone".into() });
    assert_eq!(s.source_id, 4);
}

#[test]
fn smart_rule_view_round_trip() {
    let r = SmartRule {
        is_raw: Some(true),
        camera_make: Some("Sony".into()),
        person_ids: vec![1, 3],
        after_day: Some(100),
        ..Default::default()
    };
    let v: SmartRuleView = to_view(r.clone());
    assert_eq!(v.camera_make.as_deref(), Some("Sony"));
    assert_eq!(from_view(v), r);
}

// ---------------------------------------------------------------- geocode

#[test]
fn geocoder_loads_the_bundled_dataset() {
    assert_eq!(Geocoder::new(), Geocoder);
    assert_eq!(Geocoder::load_from_path("/nowhere/cities500.tsv"), Ok(Geocoder));
}

// ---------------------------------------------------------------- tiles

#[test]
fn tile_routes() {
    let (u, m) = upstream_for("openfreemap/styles/liberty.json").unwrap();
    assert_eq!(u, "https://tiles.openfreemap.org/styles/liberty");
    assert_eq!(m, "application/json");
    let (u, m) = upstream_for("openfreemap/tiles/3/4/5.pbf").unwrap();
    assert_eq!(u, "https://tiles.openfreemap.org/planet/3/4/5.pbf");
    assert_eq!(m, "application/x-protobuf");
    let (u, m) = upstream_for("openfreemap-sprite/ofm.png").unwrap();
    assert_eq!(u, "https://tiles.openfreemap.org/sprites/ofm_f384/ofm.png");
    assert_eq!(m, "image/png");
    let (_, m) = upstream_for("openfreemap-fonts/Noto/0-255.pbf").unwrap();
    assert_eq!(m, "application/x-protobuf");
    let (u, m) = upstream_for("esri/1/2/3").unwrap();
    assert!(u.ends_with("/MapServer/tile/1/2/3"));
    assert_eq!(m, "image/jpeg");
    assert!(upstream_for("other/1/2/3").is_none());
}

#[test]
fn tile_cache_paths_follow_the_key() {
    assert_eq!(cache_path("/c", "esri/1/2/3"), "/c/esri/1/2/3");
    assert_eq!(cache_path("/c", "a"), "/c/a");
    assert_eq!(MAX_CACHE_BYTES, 500 * 1024 * 1024);
}

#[test]
fn migrations_run_every_step_above_the_version() {
    assert_eq!(CURRENT_VERSION, 9);
    assert_eq!(migration_steps(0), Some(vec![1, 2, 3, 4, 5, 6, 7, 8, 9]));
    assert_eq!(migration_steps(5), Some(vec![6, 7, 8, 9]));
    assert_eq!(migration_steps(9), Some(vec![]));
    assert_eq!(migration_steps(10), None);
    assert_eq!(migration_steps(-2), Some(vec![1, 2, 3, 4, 5, 6, 7, 8, 9]));
}

#[test]
fn half_applied_migrations_are_tolerated() {
    assert!(is_tolerated_migration_error("Duplicate column name: pet_id"));
    assert!(is_tolerated_migration_error("table share_status ALREADY EXISTS"));
    assert!(!is_tolerated_migration_error("no such table: asset"));
}

#[test]
fn tile_keys_join_host_and_path() {

    assert_eq!(tile_key("esri", "/1/2/3"), "esri/1/2/3");
    assert_eq!(tile_key("openfreemap", "//styles/liberty"), "openfreemap/styles/liberty");
    assert_eq!(tile_key("esri", "/"), "esri");
    assert_eq!(tile_key("esri", ""), "esri");
}

#[test]
fn eviction_removes_oldest_first_down_to_the_target() {

    assert_eq!(EVICTION_TARGET_BYTES, MAX_CACHE_BYTES * 9 / 10);
    assert_eq!(eviction_order(&[30, 10, 20, 10]), vec![1, 3, 2, 0]);
    assert!(eviction_order(&[]).is_empty());
    assert_eq!(Eviction::start(MAX_CACHE_BYTES), None);
    let mut e = Eviction::start(MAX_CACHE_BYTES + 1).unwrap();
    assert!(e.wants_more());
    e.removed(MAX_CACHE_BYTES - EVICTION_TARGET_BYTES + 1);
    assert!(!e.wants_more());
    e.removed(u64::MAX);
    assert_eq!(e.total, 0);
}

#[test]
fn page_limits_are_capped() {

    assert_eq!(page_limit(None), DEFAULT_PAGE_LIMIT);
    assert_eq!(page_limit(Some(10)), 10);
    assert_eq!(page_limit(Some(501)), MAX_PAGE_LIMIT);
    assert_eq!(page_limit(Some(500)), 500);
}

#[test]
fn vault_root_prefers_the_explicit_setting() {

    assert_eq!(vault_root(Some("/v"), Some("/x"), Some("/h")), "/v");
    assert_eq!(vault_root(None, Some("/x"), Some("/h")), "/x/media-vault");
    assert_eq!(vault_root(None, None, Some("/h")), "/h/.local/share/media-vault");
    assert_eq!(vault_root(None, None, None), "./media-vault");
}

#[test]
fn blob_path_shard_is_first_two_bytes() {
    let s = CasStore::at("/vault");
    assert_eq!(s.blob_path("\u{e9}abc"), "/vault/cas/\u{e9}/\u{e9}abc");
    assert_eq!(s.blob_path("0fff"), "/vault/cas/0f/0fff");
}
