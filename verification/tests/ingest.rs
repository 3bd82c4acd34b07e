use mv_core::ingest::adapters::{
    is_apple_dir_name, is_candidate, is_known_adapter, takeout_sidecar_candidates, GenericAdapter,
    GoogleTakeoutAdapter, IPhoneFolderAdapter,
};
use mv_core::ingest::report::{is_video_mime, tally, FileOutcome, IngestReport};
use mv_core::ingest::sidecar::{decode_xml, encode_xml, parse, render, sidecar_path, XmpText};

// ---------------------------------------------------------------- adapters

#[test]
fn is_candidate_classifies_common_types() {
    assert!(is_candidate("a.jpg"));
    assert!(is_candidate("a.HEIC"));
    assert!(is_candidate("img.CR2"));
    assert!(!is_candidate("a.txt"));
    assert!(!is_candidate(".hidden.jpg"));
}

#[test]
fn candidates_need_an_extension() {
    assert!(!is_candidate("/photos/jpg"));
    assert!(!is_candidate("/photos/.jpg"));
    assert!(is_candidate("/photos/trip/clip.Mp4"));
    assert!(is_candidate("/photos/raw/DSC_1.rw2"));
}

#[test]
fn adapter_kind_is_google_takeout() {
    assert_eq!(GoogleTakeoutAdapter::new().kind(), "google_takeout");
}

#[test]
fn adapter_kind_is_iphone_folder() {
    assert_eq!(IPhoneFolderAdapter::new().kind(), "iphone_folder");
}

#[test]
fn adapter_kind_is_generic() {
    assert_eq!(GenericAdapter::new().kind(), "generic");
}

#[test]
fn takeout_sidecar_path_candidates() {
    let (a, b) = takeout_sidecar_candidates("/t/a.jpg").unwrap();
    assert_eq!(a, "/t/a.jpg.json");
    assert_eq!(b, "/t/a.jpg.supplemental-metadata.json");
    assert!(takeout_sidecar_candidates("/").is_none());
}

#[test]
fn dcim_heuristic_names() {
    assert!(is_apple_dir_name("100APPLE"));
    assert!(is_apple_dir_name("101APPLE"));
    assert!(!is_apple_dir_name("Pictures"));
    assert!(!is_apple_dir_name("100CANON"));
    assert!(!is_apple_dir_name("X100APPLE"));
    assert!(!is_apple_dir_name("APPLE"));
    assert!(!is_apple_dir_name("100APPLEAPPLE"));
}

// ---------------------------------------------------------------- sidecar

#[test]
fn parse_tolerates_unknown_namespaces() {
    // A minimal XMP packet using simple elements from an unknown ns.
    let body = r#"<?xpacket begin="﻿"?>
<x:xmpmeta xmlns:x="adobe:ns:meta/">
  <rdf:RDF xmlns:rdf="http://www.w3.org/1999/02/22-rdf-syntax-ns#">
    <rdf:Description rdf:about="" xmlns:dc="http://purl.org/dc/elements/1.1/">
      <dc:title><rdf:Alt><rdf:li xml:lang="x-default">Hello</rdf:li></rdf:Alt></dc:title>
      <unknown:weird>ignored</unknown:weird>
    </rdf:Description>
  </rdf:RDF>
</x:xmpmeta>"#;
    let f = parse(body);
    assert_eq!(f.title.as_deref(), Some("Hello"));
}

#[test]
fn sidecar_path_appends_xmp() {
    let p = sidecar_path("/a/b/c.HEIC");
    assert_eq!(p, "/a/b/c.HEIC.xmp");
    let p2 = sidecar_path("/no-ext");
    assert_eq!(p2, "/no-ext.xmp");
}

fn sample() -> XmpText {
    XmpText {
        title: Some("Beach sunset".into()),
        description: Some("Golden hour over the Pacific".into()),
        tags: vec!["beach".into(), "sunset".into(), "pacific".into()],
        date_created: Some("2024-07-01T18:12:00+00:00".into()),
        gps: Some(("36,34.3920N".into(), "121,56.9880W".into())),
        notes: Some("note & <special>".into()),
        persons: vec!["Alice".into(), "Bob".into()],
        album: Some("Summer 2024".into()),
    }
}

#[test]
fn round_trip_preserves_subset() {
    let fields = sample();
    let read = parse(&render(&fields));
    assert_eq!(read.title, fields.title);
    assert_eq!(read.description, fields.description);
    assert_eq!(read.tags, fields.tags);
    assert_eq!(read.date_created, fields.date_created);
    assert_eq!(read.notes, fields.notes);
    assert_eq!(read.persons, fields.persons);
    assert_eq!(read.album, fields.album);
    assert_eq!(read.gps, fields.gps);
}

#[test]
fn round_trip_keeps_markup_characters_in_every_text() {
    let fields = XmpText {
        title: Some("Tom & Jerry <3".into()),
        description: Some("\"quoted\" and 'single' > less".into()),
        tags: vec!["a=b".into(), "".into(), "x < y".into()],
        date_created: None,
        gps: None,
        notes: Some("  spaced notes & more  ".into()),
        persons: vec!["O'Brien".into()],
        album: Some("key=value".into()),
    };
    assert_eq!(parse(&render(&fields)), fields);
}

#[test]
fn album_ending_in_a_later_key_is_read_as_that_attribute() {
    // The notes attribute is looked up by `photoshop:Instructions="`, which the
    // album's closing quote completes here.
    let fields = XmpText {
        album: Some("photoshop:Instructions=".into()),
        notes: Some("n".into()),
        ..Default::default()
    };
    let read = parse(&render(&fields));
    assert_eq!(read.album, fields.album);
    assert_ne!(read.notes, fields.notes);
}

#[test]
fn element_text_with_edge_spaces_is_trimmed() {
    let fields = XmpText { title: Some(" padded ".into()), ..Default::default() };
    assert_eq!(parse(&render(&fields)).title, Some("padded".to_string()));
}

#[test]
fn render_escapes_markup() {
    let x = XmpText { notes: Some("a & <b>".into()), ..Default::default() };
    let body = render(&x);
    assert!(body.contains("a &amp; &lt;b&gt;"));
    assert!(!body.contains("<b>"));
}

#[test]
fn empty_packet_parses_to_nothing() {
    assert_eq!(parse(""), XmpText::default());
    assert_eq!(parse(&render(&XmpText::default())), XmpText::default());
}

// ---------------------------------------------------------------- report

#[test]
fn report_counts_each_outcome_once() {
    let outcomes = vec![
        FileOutcome::Inserted { asset_id: 1, bytes: 10 },
        FileOutcome::Existing { asset_id: 1 },
        FileOutcome::Inserted { asset_id: 2, bytes: 20 },
        FileOutcome::Skipped("not media".into()),
        FileOutcome::Failed("io".into()),
        FileOutcome::Failed("io".into()),
    ];
    let r = tally(&outcomes);
    assert_eq!(r, IngestReport { inserted: 2, deduped: 1, skipped: 1, errors: 2 });
    assert_eq!(tally(&[]), IngestReport::empty());
}

#[test]
fn reingest_of_same_files_is_all_dedupe() {
    let mut r = IngestReport::empty();
    r.record(&FileOutcome::Existing { asset_id: 3 });
    r.record(&FileOutcome::Existing { asset_id: 4 });
    assert_eq!(r.inserted, 0);
    assert_eq!(r.deduped, 2);
}

#[test]
fn video_mime_prefix() {
    assert!(is_video_mime("video/mp4"));
    assert!(!is_video_mime("image/jpeg"));
    assert!(!is_video_mime("Video/mp4"));
}

#[test]
fn dcim_heuristic_true_for_apple_subdir() {
    assert!(mv_core::ingest::adapters::looks_like_dcim_tree(&["100APPLE".to_string()]));
}

#[test]
fn dcim_heuristic_false_for_plain_folder() {
    assert!(!mv_core::ingest::adapters::looks_like_dcim_tree(&["Pictures".to_string()]));
    assert!(!mv_core::ingest::adapters::looks_like_dcim_tree(&[]));
}

#[test]
fn adapter_names() {

    assert!(is_known_adapter("generic"));
    assert!(is_known_adapter("iphone_folder"));
    assert!(is_known_adapter("google_takeout"));
    assert!(!is_known_adapter("Generic"));
    assert!(!is_known_adapter(""));
}

#[test]
fn xml_escaping_round_trips() {

    let s: Vec<char> = "note & <special> \"q\" 'a' &amp;".chars().collect();
    let enc = encode_xml(&s);
    let enc_s: String = enc.iter().collect();
    assert_eq!(enc_s, "note &amp; &lt;special&gt; &quot;q&quot; &apos;a&apos; &amp;amp;");
    assert_eq!(decode_xml(&enc), s);
}

#[test]
fn entity_text_survives_escaping() {
    let s: Vec<char> = "&lt; &amp;lt; &apos;".chars().collect();
    let back: String = decode_xml(&encode_xml(&s)).iter().collect();
    assert_eq!(back, "&lt; &amp;lt; &apos;");
    let d: Vec<char> = "&amp;lt;".chars().collect();
    let once: String = decode_xml(&d).iter().collect();
    assert_eq!(once, "&lt;");
}

#[test]
fn sidecar_path_keeps_unusual_extensions() {
    assert_eq!(sidecar_path("/a/b\\c.x\\y"), "/a/b\\c.x\\y.xmp");
    assert_eq!(sidecar_path("/d/a.b/"), "/d/a.b.xmp");
    assert_eq!(sidecar_path("rel.tar.gz"), "rel.tar.gz.xmp");
    assert_eq!(sidecar_path(".hidden"), ".hidden.xmp");
}
