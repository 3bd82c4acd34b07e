use chrono::NaiveDate;
use mv_core::analytics::memories::{on_this_day, CivilDate, WINDOW_DAYS};
use mv_core::analytics::smart_albums::{SmartRule, FIRST_DAY, FIRST_TIMESTAMP, LAST_DAY, LAST_TIMESTAMP, SMART_RULE_LIMIT};
use mv_core::analytics::trips::{format_day_range, trips_from_labels, trips_of_points, DEFAULT_MIN_SAMPLES};

fn day(y: i32, m: u32, d: u32) -> i64 {
    let date = NaiveDate::from_ymd_opt(y, m, d).unwrap();
    let epoch = NaiveDate::from_ymd_opt(1970, 1, 1).unwrap();
    (date - epoch).num_days()
}

fn date(y: i32, m: u32, d: u32) -> CivilDate {
    CivilDate::from_ymd(y, m, d).unwrap()
}

// ---------------------------------------------------------------- smart albums

#[test]
fn compile_empty_is_no_op() {
    let r = SmartRule::default();
    assert!(r.is_empty());
    let q = r.compile();
    assert!(q.text.is_none());
    assert!(q.date_range.is_none());
}

#[test]
fn compile_with_flags_copies_through() {
    let r = SmartRule {
        is_raw: Some(true),
        camera_make: Some("Sony".into()),
        ..Default::default()
    };
    let q = r.compile();
    assert_eq!(q.is_raw, Some(true));
    assert_eq!(q.camera_make.as_deref(), Some("Sony"));
}

#[test]
fn date_range_widens_when_half_open() {
    let r = SmartRule {
        after_day: Some(100),
        ..Default::default()
    };
    let q = r.compile();
    // Both endpoints populated so the executor's AND logic works.
    let (a, b) = q.date_range.unwrap();
    assert!(a <= b);
}

#[test]
fn compile_converts_days_to_seconds() {
    let r = SmartRule {
        after_day: Some(100),
        before_day: Some(200),
        person_ids: vec![1, 3],
        ..Default::default()
    };
    let q = r.compile();
    assert_eq!(q.date_range, Some((100 * 86_400, 200 * 86_400)));
    assert_eq!(q.person_ids, vec![1, 3]);
    assert_eq!(q.limit, SMART_RULE_LIMIT);
    assert!(!q.hidden_vault_unlocked);
    assert!(q.text.is_none());
}

#[test]
fn half_open_ranges_reach_chronos_far_ends() {
    let first = chrono::NaiveDate::MIN.and_hms_opt(0, 0, 0).unwrap().and_utc().timestamp();
    let last = chrono::NaiveDate::MAX.and_hms_opt(23, 59, 59).unwrap().and_utc().timestamp();
    assert_eq!((first, last), (FIRST_TIMESTAMP, LAST_TIMESTAMP));
    let after = SmartRule { after_day: Some(100), ..Default::default() }.compile();
    assert_eq!(after.date_range, Some((8_640_000, LAST_TIMESTAMP)));
    let before = SmartRule { before_day: Some(100), ..Default::default() }.compile();
    assert_eq!(before.date_range, Some((FIRST_TIMESTAMP, 8_640_000)));
    // Days chrono cannot represent are clamped to its range.
    let wide = SmartRule { after_day: Some(i64::MIN), before_day: Some(i64::MAX), ..Default::default() }.compile();
    assert_eq!(wide.date_range, Some((FIRST_TIMESTAMP, LAST_TIMESTAMP)));
    assert_eq!(LAST_DAY, i64::MAX / 86_400);
    assert_eq!(FIRST_DAY, i64::MIN / 86_400);
}

#[test]
fn any_clause_makes_a_rule_non_empty() {
    assert!(!SmartRule { is_video: Some(false), ..Default::default() }.is_empty());
    assert!(!SmartRule { person_ids: vec![7], ..Default::default() }.is_empty());
    assert!(!SmartRule { lens: Some(String::new()), ..Default::default() }.is_empty());
    assert!(!SmartRule { before_day: Some(0), ..Default::default() }.is_empty());
}

// ---------------------------------------------------------------- memories

#[test]
fn same_day_prior_year_matches() {
    let today = date(2026, 6, 15);
    let assets = vec![
        (10, day(2024, 6, 15)),
        (20, day(2023, 6, 15)),
        (30, day(2020, 6, 15)),
    ];
    let groups = on_this_day(&today, &assets);
    assert_eq!(groups.len(), 3);
    assert_eq!(groups[0].year, 2024);
    assert_eq!(groups[1].year, 2023);
    assert_eq!(groups[2].year, 2020);
    assert_eq!(groups[2].years_ago, 6);
}

#[test]
fn within_three_days_matches() {
    let today = date(2026, 6, 15);
    let assets = vec![
        (1, day(2024, 6, 12)), // 3 days before
        (2, day(2024, 6, 18)), // 3 days after
        (3, day(2024, 6, 20)), // 5 days after, should NOT match
    ];
    let groups = on_this_day(&today, &assets);
    assert_eq!(groups.len(), 1);
    assert_eq!(groups[0].asset_ids, vec![1, 2]);
}

#[test]
fn leap_day_is_a_day_before_march_first() {
    let today = date(2026, 3, 1);
    assert_eq!(day(2024, 2, 29), 19782);
    let groups = on_this_day(&today, &[(1, 19782)]);
    assert_eq!(groups.len(), 1);
    assert_eq!(groups[0].year, 2024);
    assert_eq!(groups[0].years_ago, 2);
    assert_eq!(groups[0].asset_ids, vec![1]);
}

#[test]
fn leap_day_today_matches_neighbours_of_other_years() {
    let today = date(2028, 2, 29);
    let groups = on_this_day(&today, &[(1, day(2027, 3, 1)), (2, day(2027, 3, 5))]);
    assert_eq!(groups.len(), 1);
    assert_eq!(groups[0].asset_ids, vec![1]);
}

#[test]
fn current_year_excluded() {
    let today = date(2026, 6, 15);
    let assets = vec![(99, day(2026, 6, 15))];
    assert!(on_this_day(&today, &assets).is_empty());
}

#[test]
fn new_year_wraparound() {
    // Jan 1 today; a Dec 30 photo from prior years should match
    // (2-day distance across year boundary).
    let today = date(2026, 1, 1);
    let assets = vec![(1, day(2024, 12, 30))];
    let groups = on_this_day(&today, &assets);
    assert_eq!(groups.len(), 1);
    assert_eq!(groups[0].asset_ids, vec![1]);
}

#[test]
fn empty_input() {
    let today = date(2026, 6, 15);
    assert!(on_this_day(&today, &[]).is_empty());
}

#[test]
fn memory_ids_are_sorted_and_groups_newest_first() {
    let today = date(2026, 6, 15);
    let assets = vec![
        (9, day(2020, 6, 14)),
        (4, day(2025, 6, 16)),
        (7, day(2020, 6, 15)),
        (1, day(2020, 6, 13)),
        (5, day(2025, 6, 15)),
    ];
    let groups = on_this_day(&today, &assets);
    assert_eq!(groups.len(), 2);
    assert_eq!(groups[0].year, 2025);
    assert_eq!(groups[0].years_ago, 1);
    assert_eq!(groups[0].asset_ids, vec![4, 5]);
    assert_eq!(groups[1].year, 2020);
    assert_eq!(groups[1].asset_ids, vec![1, 7, 9]);
}

#[test]
fn window_edge_is_inclusive() {
    assert_eq!(WINDOW_DAYS, 3);
    let today = date(2026, 6, 15);
    let assets = vec![(1, day(2021, 6, 11)), (2, day(2021, 6, 19)), (3, day(2021, 6, 12))];
    let groups = on_this_day(&today, &assets);
    assert_eq!(groups.len(), 1);
    assert_eq!(groups[0].asset_ids, vec![3]);
}

#[test]
fn negative_days_count_as_the_epoch() {
    let today = date(2026, 1, 2);
    let groups = on_this_day(&today, &[(5, -400)]);
    assert_eq!(groups.len(), 1);
    assert_eq!(groups[0].year, 1970);
    assert_eq!(groups[0].years_ago, 56);
}

#[test]
fn civil_date_rejects_impossible_dates() {
    assert!(CivilDate::from_ymd(2023, 2, 29).is_none());
    assert!(CivilDate::from_ymd(2024, 13, 1).is_none());
    assert_eq!(date(2024, 2, 29).year(), 2024);
}

// ---------------------------------------------------------------- trips

fn canonical(ids: &[i64]) -> [u8; 32] {
    let mut h = blake3::Hasher::new();
    for id in ids {
        h.update(&id.to_le_bytes());
    }
    *h.finalize().as_bytes()
}

#[test]
fn trips_group_labels_and_drop_noise() {
    let labels = [0, -1, 1, 0, 1, 0];
    let ids = [30, 99, 7, 10, 5, 20];
    let days = [100, 50, 10, 102, 12, 101];
    let trips = trips_from_labels(&labels, &ids, &days);
    assert_eq!(trips.len(), 2);
    // Listed by first day: label 1 starts on day 10.
    assert_eq!(trips[0].label, 1);
    assert_eq!(trips[0].member_asset_ids, vec![5, 7]);
    assert_eq!(trips[0].indices, vec![2, 4]);
    assert_eq!((trips[0].start_day, trips[0].end_day), (10, 12));
    assert_eq!(trips[1].label, 0);
    assert_eq!(trips[1].member_asset_ids, vec![10, 20, 30]);
    assert_eq!(trips[1].indices, vec![0, 3, 5]);
    assert_eq!((trips[1].start_day, trips[1].end_day), (100, 102));
    assert_eq!(trips[1].canonical_id, canonical(&[10, 20, 30]));
}

#[test]
fn canonical_id_ignores_input_order() {
    let a = trips_from_labels(&[0, 0, 0], &[3, 1, 2], &[5, 5, 5]);
    let b = trips_from_labels(&[4, 4, 4], &[2, 3, 1], &[5, 5, 5]);
    assert_eq!(a[0].canonical_id, b[0].canonical_id);
    assert_eq!(a[0].canonical_id, canonical(&[1, 2, 3]));
    assert_ne!(a[0].canonical_id, canonical(&[3, 1, 2]));
}

#[test]
fn all_noise_makes_no_trip() {
    assert!(trips_from_labels(&[-1, -1], &[1, 2], &[0, 0]).is_empty());
    assert!(trips_from_labels(&[], &[], &[]).is_empty());
    assert_eq!(DEFAULT_MIN_SAMPLES, 5);
}

#[test]
fn day_range_formats() {
    assert_eq!(format_day_range(19725, 19725), "Jan 3, 2024");
    assert_eq!(format_day_range(19725, 19732), "Jan 3 \u{2192} Jan 10, 2024");
    assert_eq!(format_day_range(19721, 19724), "Dec 30, 2023 \u{2192} Jan 2, 2024");
    assert_eq!(format_day_range(-5, 0), "Jan 1, 1970");
    assert_eq!(format_day_range(0, i64::MAX), "day 0..9223372036854775807");
    assert_eq!(format_day_range(-3, i64::MAX), "day -3..9223372036854775807");
    assert_eq!(format_day_range(2932897, 2932897), "Jan 1, +10000");
}

#[test]
fn too_few_points_make_no_trips() {
    let labels = [0, 0, 0];
    let ids = [1, 2, 3];
    let days = [10, 11, 12];
    assert!(trips_of_points(&labels, &ids, &days, DEFAULT_MIN_SAMPLES).is_empty());
    let trips = trips_of_points(&labels, &ids, &days, 3);
    assert_eq!(trips.len(), 1);
    assert_eq!(trips[0].member_asset_ids, vec![1, 2, 3]);
    assert!(trips_of_points(&[], &[], &[], 0).is_empty());
}
