use image::{ImageBuffer, ImageFormat, Rgb};
use mv_core::media::derive::{derive_thumbnails, probe_basic_image, ThumbnailSize};
use mv_core::media::probe::{looks_like_screenshot, probe_plan, sniff_mime, DimensionProbe, ProbePlan};

fn encoded(img: &ImageBuffer<Rgb<u8>, Vec<u8>>, format: ImageFormat) -> Vec<u8> {
    let mut out = Vec::new();
    img.write_to(&mut std::io::Cursor::new(&mut out), format).unwrap();
    out
}

fn make_jpeg(w: u32, h: u32) -> Vec<u8> {
    let img: ImageBuffer<Rgb<u8>, Vec<u8>> =
        ImageBuffer::from_fn(w, h, |x, y| Rgb([(x % 255) as u8, (y % 255) as u8, ((x + y) % 255) as u8]));
    encoded(&img, ImageFormat::Jpeg)
}

fn tiny_jpeg() -> Vec<u8> {
    let img: ImageBuffer<Rgb<u8>, Vec<u8>> = ImageBuffer::from_fn(8, 6, |x, y| Rgb([(x * 32) as u8, (y * 48) as u8, 128]));
    encoded(&img, ImageFormat::Jpeg)
}

fn tiny_png() -> Vec<u8> {
    let img: ImageBuffer<Rgb<u8>, Vec<u8>> = ImageBuffer::from_fn(10, 4, |_, _| Rgb([1, 2, 3]));
    encoded(&img, ImageFormat::Png)
}

fn lower_ext(e: &str) -> Vec<char> {
    e.to_ascii_lowercase().chars().collect()
}

/// What probing reads of a file's bytes: MIME, dimensions, RAW and
/// screenshot flags.
fn probe_bytes(name: &str, bytes: &[u8]) -> (String, Option<u32>, Option<u32>, bool, bool) {
    let ext_raw = name.rsplit_once('.').map(|(_, e)| e);
    let ext = ext_raw.map(lower_ext);
    let head = &bytes[..bytes.len().min(512)];
    let mime = sniff_mime(head, ext.as_deref()).to_string();
    let plan = probe_plan(&mime, ext.as_deref());
    let (w, h) = match plan.dimensions {
        DimensionProbe::Image => match probe_basic_image(bytes, ext_raw) {
            Some((w, h)) => (Some(w), Some(h)),
            None => (None, None),
        },
        _ => (None, None),
    };
    let screenshot = looks_like_screenshot(&format!("/d/{name}"), &mime);
    (mime, w, h, plan.is_raw, screenshot)
}

#[test]
fn produces_two_thumbnails_respecting_max_dim() {
    let bytes = make_jpeg(4000, 3000);
    let thumbs = derive_thumbnails(&bytes, Some("jpg")).unwrap();
    assert_eq!(thumbs.len(), 2);
    let t256 = &thumbs[0];
    assert_eq!(t256.size, ThumbnailSize::Thumb256);
    assert!(t256.width <= 256 && t256.height <= 256);
    assert_eq!(t256.width.max(t256.height), 256);

    let t1024 = &thumbs[1];
    assert_eq!(t1024.size, ThumbnailSize::Thumb1024);
    assert!(t1024.width <= 1024 && t1024.height <= 1024);
    assert_eq!(t1024.width.max(t1024.height), 1024);

    // WebP magic: "RIFF....WEBP"
    for t in thumbs {
        assert!(t.bytes.len() > 12);
        assert_eq!(&t.bytes[0..4], b"RIFF");
        assert_eq!(&t.bytes[8..12], b"WEBP");
    }
}

#[test]
fn unreadable_file_yields_empty_vec_not_error() {
    let thumbs = derive_thumbnails(b"this is not a real JPEG", Some("jpg")).unwrap();
    assert!(thumbs.is_empty());
}

#[test]
fn upscale_small_source_doesnt_balloon() {
    // Source already fits in 256px — resize should not upscale.
    let thumbs = derive_thumbnails(&make_jpeg(100, 80), Some("jpg")).unwrap();
    assert_eq!(thumbs[0].width, 100);
    assert_eq!(thumbs[0].height, 80);
    assert_eq!(thumbs[1].width, 100);
    assert_eq!(thumbs[1].height, 80);
}

#[test]
fn thumbnails_need_no_extension() {
    let thumbs = derive_thumbnails(&tiny_png(), None).unwrap();
    assert_eq!(thumbs.len(), 2);
    assert_eq!((thumbs[0].width, thumbs[0].height), (10, 4));
}

#[test]
fn probe_jpeg_returns_dimensions_and_mime() {
    let (mime, w, h, is_raw, screenshot) = probe_bytes("a.jpg", &tiny_jpeg());
    assert_eq!(mime, "image/jpeg");
    assert_eq!(w, Some(8));
    assert_eq!(h, Some(6));
    assert!(!is_raw);
    assert!(!screenshot);
}

#[test]
fn probe_png_returns_dimensions() {
    let (mime, w, h, _, _) = probe_bytes("a.png", &tiny_png());
    assert_eq!(mime, "image/png");
    assert_eq!(w, Some(10));
    assert_eq!(h, Some(4));
}

#[test]
fn probe_basic_image_unreadable_is_none() {
    assert_eq!(probe_basic_image(b"nope", Some("png")), None);
    assert_eq!(probe_basic_image(&[], None), None);
}

#[test]
fn probe_plan_by_kind() {
    let plan = |m: &str, e: Option<&str>| {
        let e = e.map(lower_ext);
        probe_plan(m, e.as_deref())
    };
    assert_eq!(
        plan("image/jpeg", Some("jpg")),
        ProbePlan { dimensions: DimensionProbe::Image, exif: true, mime_only_json: false, is_raw: false }
    );
    assert_eq!(plan("image/heic", Some("heic")).dimensions, DimensionProbe::Heif);
    assert_eq!(plan("image/heif", None).dimensions, DimensionProbe::Heif);
    assert_eq!(
        plan("video/mp4", Some("mp4")),
        ProbePlan { dimensions: DimensionProbe::Video, exif: false, mime_only_json: true, is_raw: false }
    );
    assert_eq!(
        plan("application/octet-stream", Some("CR2")),
        ProbePlan { dimensions: DimensionProbe::Raw, exif: false, mime_only_json: false, is_raw: true }
    );
    // A RAW file that sniffs as an image (TIFF-based) is probed as one.
    assert_eq!(plan("image/tiff", Some("dng")).dimensions, DimensionProbe::Image);
    assert_eq!(
        plan("text/plain", Some("txt")),
        ProbePlan { dimensions: DimensionProbe::Skip, exif: false, mime_only_json: false, is_raw: false }
    );
    assert_eq!(plan("application/octet-stream", None).dimensions, DimensionProbe::Skip);
}
