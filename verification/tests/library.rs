use mv_core::analytics::smart_albums::SmartRule;
use mv_core::cas::{content_address, ContentHasher};
use mv_core::crypto::envelope::{finished_after, frame_step, FrameStep, SECRETSTREAM_TAG_FINAL};
use mv_core::error::AppError;
use mv_core::ingest::adapters::check_add_source;
use mv_core::crypto::keystore::check_new_user;
use mv_core::share::parse_peer_node_id;
use mv_core::crypto::unlock::{unlock_start, unlock_step, UnlockAction};
use mv_core::ingest::takeout::{parse_i64, takeout_fields, TakeoutMeta};
use mv_core::dto::ExportReport;
use mv_core::export::{export_file_name, tally, ExportOutcome};
use mv_core::geocode::{group_places, NamedPlace};
use mv_core::media::exif::{exif_summary, field_key, primary_field, probe_exif, ExifContext, ExifField, DATE_TIME, MODEL};

fn names(v: &[&str]) -> Vec<String> {
    v.iter().map(|s| s.to_string()).collect()
}

fn place(city: &str, country: &str) -> Option<NamedPlace> {
    Some(NamedPlace { city: city.into(), region: "R".into(), country: country.into() })
}

// ---------------------------------------------------------------- content addressing

#[test]
fn content_address_is_blake3_hex() {
    let want = blake3::hash(b"abc").to_hex().to_string();
    assert_eq!(content_address(b"abc"), want);
    assert_eq!(content_address(b"abc").len(), 64);
    assert_ne!(content_address(b"abc"), content_address(b"abd"));
}

#[test]
fn streamed_address_matches_whole_address() {
    let mut h = ContentHasher::new();
    h.update(b"hello ");
    h.update(b"");
    h.update(b"world");
    assert_eq!(h.address(), content_address(b"hello world"));
    assert_eq!(ContentHasher::new().address(), content_address(b""));
}

// ---------------------------------------------------------------- smart albums

#[test]
fn compile_closed_range_without_clock() {
    let r = SmartRule { after_day: Some(100), before_day: Some(200), ..Default::default() };
    assert_eq!(r.compile().date_range, Some((8_640_000, 17_280_000)));
}

// ---------------------------------------------------------------- export

#[test]
fn export_name_is_file_name_when_free() {
    assert_eq!(export_file_name(Some("a.jpg"), 7, &names(&["b.jpg"])), "a.jpg");
}

#[test]
fn export_name_numbers_taken_names() {
    assert_eq!(export_file_name(Some("a.jpg"), 7, &names(&["a.jpg"])), "a-1.jpg");
    assert_eq!(export_file_name(Some("a.jpg"), 7, &names(&["a.jpg", "a-1.jpg"])), "a-1-2.jpg");
}

#[test]
fn export_name_falls_back_to_asset_id() {
    assert_eq!(export_file_name(None, 7, &[]), "asset_7.bin");
    assert_eq!(export_file_name(None, -3, &[]), "asset_-3.bin");
    assert_eq!(export_file_name(None, 7, &names(&["asset_7.bin"])), "asset_7-1.bin");
}

#[test]
fn export_name_without_extension_gets_bin() {
    assert_eq!(export_file_name(Some("README"), 1, &names(&["README"])), "README-1.bin");
}

#[test]
fn export_report_counts_outcomes() {
    let mut r = ExportReport { files_written: 0, bytes_written: 0, xmp_written: 0, skipped: 0 };
    r.record(ExportOutcome::Skipped);
    r.record(ExportOutcome::Written { bytes: 10, xmp: true });
    r.record(ExportOutcome::Written { bytes: 5, xmp: false });
    assert_eq!(r, ExportReport { files_written: 2, bytes_written: 15, xmp_written: 1, skipped: 1 });
}

// ---------------------------------------------------------------- places

#[test]
fn places_group_by_country_and_city() {
    let rows = vec![
        (1, 10, place("Paris", "FR")),
        (2, 11, place("Lyon", "FR")),
        (3, 12, place("Paris", "FR")),
        (4, 13, None),
        (5, 14, place("Paris", "US")),
    ];
    let v = group_places(&rows, None, None);
    assert_eq!(v.len(), 3);
    assert_eq!(v[0].place_id, "FR:Paris");
    assert_eq!(v[0].asset_ids, vec![1, 3]);
    assert_eq!(v[0].sample_asset_ids, vec![1, 3]);
    assert_eq!(v[0].city, "Paris");
    assert_eq!(v[0].region, "R");
    assert_eq!(v[0].country, "FR");
    let mut rest: Vec<String> = v[1..].iter().map(|g| g.place_id.clone()).collect();
    rest.sort();
    assert_eq!(rest, vec!["FR:Lyon".to_string(), "US:Paris".to_string()]);
}

#[test]
fn places_day_filter_is_inclusive() {
    let rows = vec![(1, 10, place("Oslo", "NO")), (2, 20, place("Oslo", "NO")), (3, 30, place("Oslo", "NO"))];
    let v = group_places(&rows, Some(20), Some(30));
    assert_eq!(v.len(), 1);
    assert_eq!(v[0].asset_ids, vec![2, 3]);
    assert!(group_places(&rows, Some(31), None).is_empty());
    assert!(group_places(&[], None, None).is_empty());
}

#[test]
fn places_sample_takes_six_by_stride() {
    let rows: Vec<(i64, i64, Option<NamedPlace>)> = (0..13).map(|i| (i, 0, place("Rome", "IT"))).collect();
    let v = group_places(&rows, None, None);
    assert_eq!(v[0].asset_ids.len(), 13);
    assert_eq!(v[0].sample_asset_ids, vec![0, 2, 4, 6, 8, 10]);
    let rows: Vec<(i64, i64, Option<NamedPlace>)> = (0..4).map(|i| (i, 0, place("Rome", "IT"))).collect();
    assert_eq!(group_places(&rows, None, None)[0].sample_asset_ids, vec![0, 1, 2, 3]);
}

#[test]
fn places_largest_first() {
    let rows = vec![
        (1, 0, place("A", "X")),
        (2, 0, place("B", "X")),
        (3, 0, place("B", "X")),
        (4, 0, place("C", "X")),
        (5, 0, place("C", "X")),
        (6, 0, place("C", "X")),
    ];
    let v = group_places(&rows, None, None);
    let ids: Vec<&str> = v.iter().map(|g| g.place_id.as_str()).collect();
    assert_eq!(ids, vec!["X:C", "X:B", "X:A"]);
}

// ---------------------------------------------------------------- exif

fn field(ifd: u16, context: ExifContext, number: u16, text: &str, first_uint: Option<u32>) -> ExifField {
    ExifField {
        ifd,
        context,
        number,
        tag_name: format!("Tag{number}"),
        text: text.into(),
        unit_text: text.into(),
        first_uint,
    }
}

/// A little-endian TIFF block with `Model` = "Pixel" and
/// `DateTime` = 2024:03:05 10:20:30.
fn tiff_block() -> Vec<u8> {
    let mut b: Vec<u8> = vec![0x49, 0x49, 0x2a, 0x00, 0x08, 0x00, 0x00, 0x00];
    b.extend_from_slice(&[0x02, 0x00]);
    b.extend_from_slice(&[0x10, 0x01, 0x02, 0x00, 0x06, 0x00, 0x00, 0x00, 38, 0x00, 0x00, 0x00]);
    b.extend_from_slice(&[0x32, 0x01, 0x02, 0x00, 0x14, 0x00, 0x00, 0x00, 44, 0x00, 0x00, 0x00]);
    b.extend_from_slice(&[0x00, 0x00, 0x00, 0x00]);
    b.extend_from_slice(b"Pixel\0");
    b.extend_from_slice(b"2024:03:05 10:20:30\0");
    b
}

#[test]
fn probe_exif_reads_model_and_time() {
    let (fields, s) = probe_exif(&tiff_block(), Some(640), None).unwrap();
    assert_eq!(fields.len(), 2);
    assert_eq!(field_key(&fields[0]), "primary::Model");
    assert_eq!(field_key(&fields[1]), "primary::DateTime");
    assert_eq!(s.device.as_deref(), Some("Pixel"));
    assert_eq!(s.lens, None);
    assert_eq!(s.width, Some(640));
    assert_eq!(s.height, None);
    let t = chrono::NaiveDate::from_ymd_opt(2024, 3, 5).unwrap().and_hms_opt(10, 20, 30).unwrap().and_utc();
    assert_eq!(s.taken_at_utc, Some(t.timestamp()));
}

#[test]
fn probe_exif_rejects_unknown_bytes() {
    assert!(probe_exif(b"not an image", None, None).is_none());
    assert!(probe_exif(&[], Some(1), Some(2)).is_none());
}

#[test]
fn exif_summary_dimension_fallback() {
    let fields = vec![
        field(0, ExifContext::Exif, 0xa002, "4032", Some(4032)),
        field(0, ExifContext::Exif, 0xa003, "3024", Some(3024)),
    ];
    let s = exif_summary(&fields, None, None);
    assert_eq!((s.width, s.height), (Some(4032), Some(3024)));
    let s = exif_summary(&fields, Some(10), None);
    assert_eq!((s.width, s.height), (Some(10), Some(3024)));
}

#[test]
fn exif_summary_primary_image_only_and_last_wins() {
    let fields = vec![
        field(0, ExifContext::Tiff, 0x110, "\"First\"", None),
        field(1, ExifContext::Tiff, 0x110, "\"Thumb\"", None),
        field(0, ExifContext::Gps, 0x110, "\"Gps\"", None),
        field(0, ExifContext::Tiff, 0x110, "\"Second\"", None),
        field(0, ExifContext::Exif, 0xa434, "\"\"", None),
    ];
    let s = exif_summary(&fields, None, None);
    assert_eq!(s.device.as_deref(), Some("Second"));
    assert_eq!(s.lens, None);
    assert_eq!(primary_field(&fields, MODEL).unwrap().text, "\"Second\"");
    assert!(primary_field(&fields, DATE_TIME).is_none());
}

#[test]
fn exif_summary_time_prefers_original() {
    let fields = vec![
        field(0, ExifContext::Tiff, 0x132, "2020-01-01 00:00:00", None),
        field(0, ExifContext::Exif, 0x9003, "2021-01-01 00:00:00", None),
    ];
    assert_eq!(exif_summary(&fields, None, None).taken_at_utc, Some(1_609_459_200));
    let fields = vec![
        field(0, ExifContext::Tiff, 0x132, "2020-01-01 00:00:00", None),
        field(0, ExifContext::Exif, 0x9003, "garbage", None),
    ];
    assert_eq!(exif_summary(&fields, None, None).taken_at_utc, Some(1_577_836_800));
}

// ---------------------------------------------------------------- blob reading

#[test]
fn frame_step_decisions() {
    assert_eq!(frame_step(true, 0), FrameStep::Done);
    assert_eq!(frame_step(true, 100), FrameStep::Done);
    assert_eq!(frame_step(false, 0), FrameStep::Truncated);
    assert_eq!(frame_step(false, 1), FrameStep::Open);
}

#[test]
fn final_tag_ends_the_stream() {
    assert_eq!(SECRETSTREAM_TAG_FINAL as u32, libsodium_sys::crypto_secretstream_xchacha20poly1305_TAG_FINAL);
    assert!(finished_after(false, SECRETSTREAM_TAG_FINAL));
    assert!(!finished_after(false, 0));
    assert!(finished_after(true, 0));
}

// ---------------------------------------------------------------- add source

#[test]
fn add_source_checks_in_order() {
    assert_eq!(check_add_source(true, "generic", true), Ok(()));
    assert_eq!(check_add_source(true, "google_takeout", true), Ok(()));
    assert_eq!(
        check_add_source(false, "nope", false),
        Err(AppError::BadRequest("root is not a directory".to_string()))
    );
    assert_eq!(
        check_add_source(true, "nope", false),
        Err(AppError::BadRequest("unknown adapter: nope".to_string()))
    );
    assert_eq!(check_add_source(true, "iphone_folder", false), Err(AppError::Locked));
}

// ---------------------------------------------------------------- takeout

#[test]
fn parse_i64_reads_like_str_parse() {
    for s in ["0", "42", "-42", "+7", "", "-", "+", "1a", " 1", "9223372036854775807", "-9223372036854775808",
        "9223372036854775808", "-9223372036854775809", "000123", "99999999999999999999999", "--1"] {
        assert_eq!(parse_i64(s), s.parse::<i64>().ok(), "{s}");
    }
}

#[test]
fn takeout_fields_map_metadata() {
    let f = takeout_fields(TakeoutMeta {
        title: Some("IMG_1.jpg".into()),
        description: Some("Beach".into()),
        timestamp: Some("1700000000".into()),
        people: vec![Some("Ann".into()), None, Some("Bob".into())],
    });
    assert_eq!(f.title.as_deref(), Some("IMG_1.jpg"));
    assert_eq!(f.description.as_deref(), Some("Beach"));
    assert_eq!(f.date_created, Some(1_700_000_000));
    assert_eq!(f.persons, vec!["Ann".to_string(), "Bob".to_string()]);
    assert_eq!(f.album, None);
}

#[test]
fn takeout_bad_timestamp_is_dropped() {
    let meta = |t: &str| TakeoutMeta { title: None, description: None, timestamp: Some(t.into()), people: vec![] };
    assert_eq!(takeout_fields(meta("soon")).date_created, None);
    assert_eq!(takeout_fields(meta("9223372036854775807")).date_created, None);
    assert_eq!(takeout_fields(meta("-1")).date_created, Some(-1));
    assert_eq!(takeout_fields(TakeoutMeta { title: None, description: None, timestamp: None, people: vec![] }).date_created, None);
}

#[test]
fn digest_is_blake3_of_fed_bytes() {
    let mut h = ContentHasher::new();
    h.update(b"ab");
    h.update(b"c");
    assert_eq!(h.digest(), *blake3::hash(b"abc").as_bytes());
    assert_ne!(h.digest(), *blake3::hash(b"ab").as_bytes());
}

// ---------------------------------------------------------------- requests

#[test]
fn new_user_checks() {
    assert_eq!(check_new_user("ann", "correct horse"), Ok(()));
    assert_eq!(check_new_user("  \t", "correct horse"), Err(AppError::BadRequest("username required".to_string())));
    assert_eq!(check_new_user("", "x"), Err(AppError::BadRequest("username required".to_string())));
    assert_eq!(
        check_new_user("ann", "elevenchars"),
        Err(AppError::BadRequest("password must be \u{2265} 12 chars".to_string()))
    );
    assert_eq!(check_new_user("ann", "twelve chars"), Ok(()));
    // Twelve bytes of UTF-8 in four characters.
    assert_eq!(check_new_user("ann", "\u{e9}\u{e9}\u{e9}\u{e9}\u{e9}\u{e9}"), Ok(()));
    assert!(check_new_user("ann", "\u{e9}\u{e9}\u{e9}\u{e9}\u{e9}").is_err());
}

#[test]
fn peer_node_id_checks() {
    let id = "ab".repeat(32);
    assert_eq!(parse_peer_node_id(&id), Ok([0xab; 32]));
    assert_eq!(parse_peer_node_id(&"AB".repeat(32)), Ok([0xab; 32]));
    let hex_err = Err(AppError::BadRequest("peer_node_id_hex must be hex".to_string()));
    assert_eq!(parse_peer_node_id("zz"), hex_err);
    assert_eq!(parse_peer_node_id("abc"), hex_err);
    assert_eq!(
        parse_peer_node_id("abcd"),
        Err(AppError::BadRequest("peer_node_id must be 32 bytes".to_string()))
    );
    assert_eq!(
        parse_peer_node_id(""),
        Err(AppError::BadRequest("peer_node_id must be 32 bytes".to_string()))
    );
}

// ---------------------------------------------------------------- unlock

#[test]
fn unlock_needs_an_index_with_users() {
    assert_eq!(unlock_start(false, 3), Err(AppError::NotFound));
    assert_eq!(unlock_start(true, 0), Err(AppError::NotFound));
    assert_eq!(unlock_start(false, 0), Err(AppError::NotFound));
    assert_eq!(unlock_start(true, 1), Ok(()));
}

#[test]
fn unlock_steps_accept_the_first_matching_user() {
    assert_eq!(unlock_step("ann", 3, 0, Some("bob")), UnlockAction::Next(1));
    assert_eq!(unlock_step("ann", 3, 1, None), UnlockAction::Next(2));
    assert_eq!(unlock_step("ann", 3, 2, Some("ann")), UnlockAction::Accept(2));
    assert_eq!(unlock_step("ann", 3, 2, Some("Ann")), UnlockAction::Fail(AppError::Crypto));
    assert_eq!(unlock_step("ann", 1, 0, None), UnlockAction::Fail(AppError::Crypto));
    // Run over what each user's row revealed.
    let revealed = [None, Some("ann"), Some("ann")];
    let mut i = 0;
    let outcome = loop {
        match unlock_step("ann", revealed.len(), i, revealed[i]) {
            UnlockAction::Next(j) => i = j,
            other => break other,
        }
    };
    assert_eq!(outcome, UnlockAction::Accept(1));
}

#[test]
fn field_keys_name_the_directory() {
    let mut f = field(1, ExifContext::Tiff, 0x110, "x", None);
    f.tag_name = "Model".into();
    assert_eq!(field_key(&f), "thumbnail::Model");
    f.ifd = 7;
    assert_eq!(field_key(&f), "IFD7::Model");
}

#[test]
fn tally_counts_every_member_once() {
    let outcomes = [
        ExportOutcome::Written { bytes: 10, xmp: true },
        ExportOutcome::Skipped,
        ExportOutcome::Written { bytes: 5, xmp: false },
        ExportOutcome::Skipped,
    ];
    let r = tally(&outcomes);
    assert_eq!(r, ExportReport { files_written: 2, bytes_written: 15, xmp_written: 1, skipped: 2 });
    assert_eq!(r.files_written + r.skipped, outcomes.len() as u64);
    assert_eq!(tally(&[]), ExportReport { files_written: 0, bytes_written: 0, xmp_written: 0, skipped: 0 });
}
