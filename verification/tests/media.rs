use mv_core::media::derive::ThumbnailSize;
use mv_core::media::pairs::{detect_pairs, has_motion_photo_trailer, is_jpeg_path, memmem};
use mv_core::media::probe::{
    clean_exif_text, exif_time, looks_like_screenshot, mime_for_ext, sniff_mime, taken_at, trim_quotes,
};

fn paths(v: &[&str]) -> Vec<String> {
    v.iter().map(|s| s.to_string()).collect()
}

// ---------------------------------------------------------------- pairs

#[test]
fn live_pair_heic_plus_mov() {
    let heic = "/d/IMG_0001.HEIC".to_string();
    let mov = "/d/IMG_0001.MOV".to_string();
    let other = "/d/Landscape.JPG".to_string();
    let report = detect_pairs(&[heic.clone(), mov.clone(), other], &[false, false, false]);
    assert_eq!(report.live.len(), 1);
    assert_eq!(report.live[0].still, heic);
    assert_eq!(report.live[0].video, mov);
}

#[test]
fn raw_jpeg_pair_cr2() {
    let raw = "/d/IMG_9991.CR2".to_string();
    let jpg = "/d/IMG_9991.JPG".to_string();
    let lone = "/d/IMG_9992.CR2".to_string();
    let report = detect_pairs(&[raw.clone(), jpg.clone(), lone], &[false, false, false]);
    assert_eq!(report.raw_jpeg.len(), 1);
    assert_eq!(report.raw_jpeg[0].raw, raw);
    assert_eq!(report.raw_jpeg[0].jpeg, jpg);
}

#[test]
fn burst_group_detected_with_e_prefix() {
    let a = "/d/IMG_1234.JPG".to_string();
    let b = "/d/IMG_E1234.JPG".to_string();
    let report = detect_pairs(&[a.clone(), b.clone()], &[false, false]);
    let group = report.burst("1234").unwrap();
    assert!(group.contains(&a));
    assert!(group.contains(&b));
}

#[test]
fn no_burst_without_e_prefix_and_fewer_than_three() {
    let report = detect_pairs(&paths(&["/d/IMG_1.JPG", "/d/IMG_2.JPG"]), &[false, false]);
    assert!(report.bursts.is_empty());
}

#[test]
fn three_plain_members_make_a_burst() {
    let p = paths(&["/d/IMG_0007.JPG", "/e/IMG_0007.JPG", "/f/IMG_0007.JPG"]);
    let report = detect_pairs(&p, &[false, false, false]);
    assert_eq!(report.bursts.len(), 1);
    assert_eq!(report.bursts[0].key, "0007");
    assert_eq!(report.bursts[0].members.len(), 3);
    assert!(report.burst("0008").is_none());
}

#[test]
fn motion_photo_trailer_detected() {
    let p = "/d/pixel.jpg".to_string();
    // Fake JPEG with Motion Photo trailer in the last block.
    let mut body = vec![0xffu8; 10 * 1024];
    body.extend_from_slice(b"\0some padding\0MotionPhoto_Data\0mp4body");
    let flag = has_motion_photo_trailer(&body);
    assert!(flag);
    let report = detect_pairs(&[p.clone()], &[flag]);
    assert_eq!(report.motion, vec![p]);
}

#[test]
fn unrelated_files_produce_empty_report() {
    let report = detect_pairs(&paths(&["/d/foo.png", "/d/bar.txt"]), &[false, false]);
    assert!(report.live.is_empty());
    assert!(report.motion.is_empty());
    assert!(report.raw_jpeg.is_empty());
    assert!(report.bursts.is_empty());
}

#[test]
fn trailer_markers() {
    assert!(has_motion_photo_trailer(b"xxMotion_Photo_Datayy"));
    assert!(has_motion_photo_trailer(b"MicroVideo"));
    assert!(!has_motion_photo_trailer(b"MotionPhoto"));
    assert!(memmem(b"abcdef", b"cde"));
    assert!(!memmem(b"abc", b"abcd"));
    assert!(is_jpeg_path("/a/B.JPEG"));
    assert!(!is_jpeg_path("/a/B.png"));
}

#[test]
fn motion_flag_only_counts_for_jpegs() {
    let report = detect_pairs(&paths(&["/d/a.png"]), &[true]);
    assert!(report.motion.is_empty());
}

// ---------------------------------------------------------------- probe

#[test]
fn screenshot_heuristic_filename() {
    assert!(looks_like_screenshot("/tmp/x/Screenshot_20260101.png", "image/png"));
}

#[test]
fn screenshot_heuristic_parent_dir() {
    assert!(looks_like_screenshot("/tmp/x/Screenshots/random.png", "image/png"));
    assert!(looks_like_screenshot("/tmp/x/Screen Shot 2020.png", "image/png"));
    assert!(!looks_like_screenshot("/tmp/x/holiday.png", "image/png"));
}

#[test]
fn mime_from_extension() {
    let e: Vec<char> = "heif".chars().collect();
    assert_eq!(mime_for_ext(Some(&e)), "image/heic");
    let m: Vec<char> = "m4v".chars().collect();
    assert_eq!(mime_for_ext(Some(&m)), "video/mp4");
    let x: Vec<char> = "xyz".chars().collect();
    assert_eq!(mime_for_ext(Some(&x)), "application/octet-stream");
    assert_eq!(mime_for_ext(None), "application/octet-stream");
}

#[test]
fn sniffing_prefers_content_over_extension() {
    let png_head = [0x89u8, 0x50, 0x4e, 0x47, 0x0d, 0x0a, 0x1a, 0x0a, 0, 0, 0, 0x0d];
    let jpg: Vec<char> = "jpg".chars().collect();
    assert_eq!(sniff_mime(&png_head, Some(&jpg)), "image/png");
    assert_eq!(sniff_mime(b"plain text", Some(&jpg)), "image/jpeg");
}

// ---------------------------------------------------------------- derive

#[test]
fn thumbnail_sizes() {
    assert_eq!(ThumbnailSize::Thumb256.max_dim(), 256);
    assert_eq!(ThumbnailSize::Thumb1024.max_dim(), 1024);
    assert_eq!(ThumbnailSize::Thumb256.as_derivative_kind(), "thumb256");
    assert_eq!(ThumbnailSize::Thumb1024.as_derivative_kind(), "thumb1024");
    assert!(ThumbnailSize::Thumb256.fits(256, 10));
    assert!(!ThumbnailSize::Thumb256.fits(257, 10));
}

// ---------------------------------------------------------------- exif

#[test]
fn taken_at_utc_day_is_days_since_epoch() {
    let ts = chrono::DateTime::parse_from_rfc3339("2024-06-01T12:30:00Z").unwrap().timestamp();
    // 2024-06-01 is day 19875.
    assert_eq!(mv_core::media::probe::taken_at_utc_day(ts), 19875);
    assert_eq!(mv_core::media::probe::taken_at_utc_day(-1), 0);
    assert_eq!(mv_core::media::probe::taken_at_utc_day(-86_400), -1);
    assert_eq!(mv_core::media::probe::taken_at_utc_day(i64::MIN), i64::MIN / 86_400);
}

#[test]
fn exif_text_loses_its_quotes() {
    assert_eq!(clean_exif_text("\"iPhone 15 Pro\""), Some("iPhone 15 Pro".to_string()));
    assert_eq!(clean_exif_text("\"\""), None);
    assert_eq!(clean_exif_text(""), None);
    assert_eq!(trim_quotes("\"a\"b\"\""), "a\"b");
}

#[test]
fn exif_times_read_both_layouts() {
    assert_eq!(exif_time("\"2024:06:01 12:30:00\""), Some(1_717_245_000));
    assert_eq!(exif_time("2024-06-01 12:30:00"), Some(1_717_245_000));
    assert_eq!(exif_time("June 1st"), None);
    assert_eq!(taken_at(Some("garbage"), Some("2024:06:01 00:00:00")), Some(1_717_200_000));
    assert_eq!(taken_at(Some("2024:06:02 00:00:00"), Some("2024:06:01 00:00:00")), Some(1_717_286_400));
    assert_eq!(taken_at(None, None), None);
}

#[test]
fn raw_extension_is_flagged_even_without_exif() {
    let ext: Vec<char> = "cr2".chars().collect();
    assert!(mv_core::media::pairs::is_raw_ext(&ext));
    let png: Vec<char> = "png".chars().collect();
    assert!(!mv_core::media::pairs::is_raw_ext(&png));
    // Bytes that sniff as nothing fall back to the extension's MIME type.
    assert_eq!(sniff_mime(b"not actually a CR2", Some(&ext)), "application/octet-stream");
}

#[test]
fn requested_sizes_pick_a_thumbnail() {
    assert_eq!(ThumbnailSize::for_request(1024), ThumbnailSize::Thumb1024);
    assert_eq!(ThumbnailSize::for_request(4000), ThumbnailSize::Thumb1024);
    assert_eq!(ThumbnailSize::for_request(1023), ThumbnailSize::Thumb256);
    assert_eq!(ThumbnailSize::for_request(0), ThumbnailSize::Thumb256);
}
