//! Derivatives: the two WebP thumbnails every decodable image gets, and
//! when a source already fits one. Decoding, resampling and encoding are
//! the `image` crate's.

use crate::error::Error;
use image::imageops::FilterType;
use image::{ImageFormat, ImageReader};
use std::io::Cursor;
use vstd::prelude::*;

verus! {

/// The two thumbnail sizes.
#[derive(Debug, Clone, Copy, PartialEq, Eq)]
pub enum ThumbnailSize {
    /// 256 px longest side — grid thumbnails.
    Thumb256,
    /// 1024 px longest side — asset-detail view.
    Thumb1024,
}

impl ThumbnailSize {
    /// The longest side of the thumbnail, in pixels.
    pub fn max_dim(&self) -> (d: u32)
        ensures
            d == match self {
                ThumbnailSize::Thumb256 => 256u32,
                ThumbnailSize::Thumb1024 => 1024u32,
            },
    {
        match self {
            ThumbnailSize::Thumb256 => 256,
            ThumbnailSize::Thumb1024 => 1024,
        }
    }

    /// The `derivative.kind` under which the thumbnail is stored.
    pub fn as_derivative_kind(&self) -> (k: &'static str)
        ensures
            k@ == match self {
                ThumbnailSize::Thumb256 => "thumb256"@,
                ThumbnailSize::Thumb1024 => "thumb1024"@,
            },
    {
        match self {
            ThumbnailSize::Thumb256 => "thumb256",
            ThumbnailSize::Thumb1024 => "thumb1024",
        }
    }

    /// Whether a `width` × `height` image is small enough to be stored as
    /// this thumbnail without resizing: both sides within the longest side.
    pub fn fits(&self, width: u32, height: u32) -> (b: bool)
        ensures
            b == (width <= self.max_dim_spec() && height <= self.max_dim_spec()),
    {
        let d = self.max_dim();
        width <= d && height <= d
    }

    /// The thumbnail served for a request of `size` pixels: the large one
    /// from 1024 up, else the small one.
    pub fn for_request(size: u32) -> (t: ThumbnailSize)
        ensures
            t == (if size >= 1024 {
                ThumbnailSize::Thumb1024
            } else {
                ThumbnailSize::Thumb256
            }),
    {
        if size >= 1024 {
            ThumbnailSize::Thumb1024
        } else {
            ThumbnailSize::Thumb256
        }
    }

    pub open spec fn max_dim_spec(&self) -> u32 {
        match self {
            ThumbnailSize::Thumb256 => 256u32,
            ThumbnailSize::Thumb1024 => 1024u32,
        }
    }
}

/// One encoded thumbnail.
#[derive(Debug, Clone)]
pub struct ThumbnailOutput {
    pub size: ThumbnailSize,
    /// WebP-encoded bytes.
    pub bytes: Vec<u8>,
    pub width: u32,
    pub height: u32,
}


/// The optional text of an optional string slice.
pub open spec fn spec_opt_str(s: Option<&str>) -> Option<Seq<char>> {
    match s {
        Some(t) => Some(t@),
        None => None,
    }
}

/// The width and height that the `image` crate reads from the header of an
/// image's bytes, the format guessed from the content or else from the
/// file extension `ext`; `None` where it cannot.
pub uninterp spec fn spec_image_dimensions(bytes: Seq<u8>, ext: Option<Seq<char>>) -> Option<(u32, u32)>;

/// Calls `image::ImageReader::into_dimensions` on a reader over `bytes`
/// whose format is the one `ImageFormat::from_extension` gives for `ext`,
/// replaced by `with_guessed_format` where the content names one. The
/// contract claims only that the result is the function named
/// `spec_image_dimensions`.
#[verifier::external_body]
fn image_dimensions(bytes: &[u8], ext: Option<&str>) -> (r: Option<(u32, u32)>)
    ensures
        r == spec_image_dimensions(bytes@, spec_opt_str(ext)),
{
    let reader = match ext.and_then(ImageFormat::from_extension) {
        Some(f) => ImageReader::with_format(Cursor::new(bytes), f),
        None => ImageReader::new(Cursor::new(bytes)),
    };
    reader.with_guessed_format().ok()?.into_dimensions().ok()
}

/// The width and height of the image the `image` crate decodes from the
/// bytes (`ImageReader::decode`, the format found as for
/// [`spec_image_dimensions`]); `None` where it cannot decode them.
pub uninterp spec fn spec_decoded_size(bytes: Seq<u8>, ext: Option<Seq<char>>) -> Option<(u32, u32)>;

/// What `DynamicImage::write_to` with `ImageFormat::WebP` gives for the
/// image decoded from the bytes: the WebP bytes with their width and
/// height, or the encoder's error text.
pub uninterp spec fn spec_encode_webp(bytes: Seq<u8>, ext: Option<Seq<char>>) -> Result<(Seq<u8>, u32, u32), Seq<char>>;

/// As [`spec_encode_webp`], of the decoded image resized by
/// `DynamicImage::resize` (aspect kept, triangle filter) to fit a
/// `max_dim` × `max_dim` box.
pub uninterp spec fn spec_resize_webp(bytes: Seq<u8>, ext: Option<Seq<char>>, max_dim: u32) -> Result<(Seq<u8>, u32, u32), Seq<char>>;

/// `image::DynamicImage`, a decoded image.
#[verifier::external_type_specification]
#[verifier::external_body]
pub struct ExDynamicImage(image::DynamicImage);

/// An image decoded from bytes, with the bytes and the file extension it
/// was decoded from. Only [`decode_image`] makes one.
pub struct DecodedImage {
    img: image::DynamicImage,
    source: Ghost<(Seq<u8>, Option<Seq<char>>)>,
}

impl DecodedImage {
    /// The bytes and the file extension the image was decoded from.
    pub closed spec fn spec_source(&self) -> (Seq<u8>, Option<Seq<char>>) {
        self.source@
    }
}

/// Calls `ImageReader::decode` on a reader made as for
/// [`image_dimensions`]. The contract claims that it decodes exactly where
/// `spec_decoded_size` names a size, and that the image keeps the bytes and
/// the extension it came from.
#[verifier::external_body]
fn decode_image(bytes: &[u8], ext: Option<&str>) -> (r: Option<DecodedImage>)
    ensures
        r is Some <==> spec_decoded_size(bytes@, spec_opt_str(ext)) is Some,
        r matches Some(d) ==> d.spec_source() == (bytes@, spec_opt_str(ext)),
{
    let reader = match ext.and_then(ImageFormat::from_extension) {
        Some(f) => ImageReader::with_format(Cursor::new(bytes), f),
        None => ImageReader::new(Cursor::new(bytes)),
    };
    let img = reader.with_guessed_format().ok()?.decode().ok()?;
    Some(DecodedImage { img, source: Ghost((bytes@, spec_opt_str(ext))) })
}

/// Calls `DynamicImage::width` and `DynamicImage::height`. The contract
/// claims that they are the size `spec_decoded_size` names for the image's
/// source.
#[verifier::external_body]
fn decoded_size(d: &DecodedImage) -> (r: (u32, u32))
    ensures
        spec_decoded_size(d.spec_source().0, d.spec_source().1) == Some(r),
{
    (d.img.width(), d.img.height())
}

/// Whether `b` begins as a WebP file does: `RIFF`, four bytes of length,
/// then `WEBP`.
pub open spec fn spec_webp_magic(b: Seq<u8>) -> bool {
    &&& b.len() >= 12
    &&& b.subrange(0, 4) == seq![0x52u8, 0x49u8, 0x46u8, 0x46u8]
    &&& b.subrange(8, 12) == seq![0x57u8, 0x45u8, 0x42u8, 0x50u8]
}

/// Calls `DynamicImage::write_to` with `ImageFormat::WebP`. The contract
/// claims that the result is the function of the image's source named
/// `spec_encode_webp`; and, where it succeeds, what the source shows: the
/// size is the image's own (encoding does not resize), and the bytes begin
/// with the RIFF/WEBP header that the WebP encoder writes first.
#[verifier::external_body]
fn encode_webp(d: &DecodedImage) -> (r: Result<(Vec<u8>, u32, u32), String>)
    ensures
        spec_webp_view(r) == spec_encode_webp(d.spec_source().0, d.spec_source().1),
        r matches Ok((b, w, h)) ==> spec_decoded_size(d.spec_source().0, d.spec_source().1) == Some((w, h))
            && spec_webp_magic(b@),
{
    let mut out = Vec::new();
    let written = d.img.write_to(&mut Cursor::new(&mut out), ImageFormat::WebP);
    written.map(|_| (out, d.img.width(), d.img.height())).map_err(|e| e.to_string())
}

/// Calls `DynamicImage::resize` with `max_dim` for both sides and
/// `FilterType::Triangle`, and encodes the result as [`encode_webp`] does.
/// The contract claims that the result is the function of the image's
/// source named `spec_resize_webp`; and, where it succeeds, what `resize`
/// documents (the largest size of the same aspect that fits the box, so
/// both sides within it and one side on it) and the WebP header, as for
/// [`encode_webp`].
#[verifier::external_body]
fn resize_webp(d: &DecodedImage, max_dim: u32) -> (r: Result<(Vec<u8>, u32, u32), String>)
    ensures
        spec_webp_view(r) == spec_resize_webp(d.spec_source().0, d.spec_source().1, max_dim),
        r matches Ok((b, w, h)) ==> w <= max_dim && h <= max_dim && (w == max_dim || h == max_dim)
            && spec_webp_magic(b@),
{
    let img = d.img.resize(max_dim, max_dim, FilterType::Triangle);
    let mut out = Vec::new();
    let written = img.write_to(&mut Cursor::new(&mut out), ImageFormat::WebP);
    written.map(|_| (out, img.width(), img.height())).map_err(|e| e.to_string())
}

/// The model of an encoding result.
pub open spec fn spec_webp_view(r: Result<(Vec<u8>, u32, u32), String>) -> Result<(Seq<u8>, u32, u32), Seq<char>> {
    match r {
        Ok((b, w, h)) => Ok((b@, w, h)),
        Err(m) => Err(m@),
    }
}

/// The header dimensions of an image, as probing reads them: the function
/// named `spec_image_dimensions` of its bytes and file extension.
pub fn probe_basic_image(bytes: &[u8], ext: Option<&str>) -> (r: Option<(u32, u32)>)
    ensures
        r == spec_image_dimensions(bytes@, spec_opt_str(ext)),
{
    image_dimensions(bytes, ext)
}

/// The thumbnail of `size` of a `w` × `h` image: the image encoded as it
/// is when it fits, never upscaled; else resized to fit.
pub open spec fn spec_thumbnail(bytes: Seq<u8>, ext: Option<Seq<char>>, size: ThumbnailSize, w: u32, h: u32) -> Result<(Seq<u8>, u32, u32), Seq<char>> {
    if w <= size.max_dim_spec() && h <= size.max_dim_spec() {
        spec_encode_webp(bytes, ext)
    } else {
        spec_resize_webp(bytes, ext, size.max_dim_spec())
    }
}

/// The thumbnails of an image as models: none where the image does not
/// decode; else the small one then the large one; or the error text of the
/// first encoding that fails.
pub open spec fn spec_derive_thumbnails(bytes: Seq<u8>, ext: Option<Seq<char>>) -> Result<Seq<(ThumbnailSize, Seq<u8>, u32, u32)>, Seq<char>> {
    match spec_decoded_size(bytes, ext) {
        None => Ok(seq![]),
        Some((w, h)) => match spec_thumbnail(bytes, ext, ThumbnailSize::Thumb256, w, h) {
            Err(m) => Err("webp encode: "@ + m),
            Ok((b1, w1, h1)) => match spec_thumbnail(bytes, ext, ThumbnailSize::Thumb1024, w, h) {
                Err(m) => Err("webp encode: "@ + m),
                Ok((b2, w2, h2)) => Ok(
                    seq![(ThumbnailSize::Thumb256, b1, w1, h1), (ThumbnailSize::Thumb1024, b2, w2, h2)],
                ),
            },
        },
    }
}

/// Thumbnails as models.
pub open spec fn spec_thumbs_view(v: Seq<ThumbnailOutput>) -> Seq<(ThumbnailSize, Seq<u8>, u32, u32)> {
    v.map_values(|t: ThumbnailOutput| (t.size, t.bytes@, t.width, t.height))
}

/// Whether `t` is a thumbnail of `size` of a `w` × `h` image as the
/// thumbnails are promised: the image's own size where it fits, else both
/// sides within the size and one side on it; WebP bytes.
pub open spec fn spec_thumb_shape(t: ThumbnailOutput, size: ThumbnailSize, w: u32, h: u32) -> bool {
    let m = size.max_dim_spec();
    &&& t.size == size
    &&& if w <= m && h <= m {
        t.width == w && t.height == h
    } else {
        t.width <= m && t.height <= m && (t.width == m || t.height == m)
    }
    &&& spec_webp_magic(t.bytes@)
}

/// The thumbnail of `size` of a decoded `w` × `h` image.
fn thumbnail(d: &DecodedImage, size: ThumbnailSize, w: u32, h: u32) -> (r: Result<ThumbnailOutput, Error>)
    ensures
        match spec_thumbnail(d.spec_source().0, d.spec_source().1, size, w, h) {
            Err(m) => r matches Err(Error::Media(e)) && e@ == "webp encode: "@ + m,
            Ok((b, tw, th)) => r matches Ok(t) && t.size == size && t.bytes@ == b && t.width == tw
                && t.height == th,
        },
        spec_decoded_size(d.spec_source().0, d.spec_source().1) == Some((w, h)) ==> (r matches Ok(t)
            ==> spec_thumb_shape(t, size, w, h)),
{
    let made = if size.fits(w, h) {
        encode_webp(d)
    } else {
        resize_webp(d, size.max_dim())
    };
    match made {
        Err(m) => {
            let mut e = String::new();
            e.push_str("webp encode: ");
            e.push_str(m.as_str());
            proof { reveal_strlit("webp encode: "); }
            Err(Error::Media(e))
        },
        Ok((b, tw, th)) => Ok(ThumbnailOutput { size, bytes: b, width: tw, height: th }),
    }
}

/// Both thumbnails (256 px and 1024 px, WebP) of an image, given its bytes
/// and its file extension; none for an image the `image` crate cannot
/// decode. A source that already fits a size is encoded as it is. The image
/// is decoded once.
pub fn derive_thumbnails(bytes: &[u8], ext: Option<&str>) -> (r: Result<Vec<ThumbnailOutput>, Error>)
    ensures
        match r {
            Ok(v) => spec_derive_thumbnails(bytes@, spec_opt_str(ext)) == Ok::<Seq<(ThumbnailSize, Seq<u8>, u32, u32)>, Seq<char>>(spec_thumbs_view(v@)),
            Err(e) => e matches Error::Media(m) && spec_derive_thumbnails(bytes@, spec_opt_str(ext))
                == Err::<Seq<(ThumbnailSize, Seq<u8>, u32, u32)>, Seq<char>>(m@),
        },
        r matches Ok(v) ==> (v@.len() == 0 <==> spec_decoded_size(bytes@, spec_opt_str(ext)) is None),
        spec_decoded_size(bytes@, spec_opt_str(ext)) matches Some((w, h)) ==> (r matches Ok(v) ==> v@.len()
            == 2 && spec_thumb_shape(v@[0], ThumbnailSize::Thumb256, w, h) && spec_thumb_shape(
            v@[1],
            ThumbnailSize::Thumb1024,
            w,
            h,
        )),
{
    let d = match decode_image(bytes, ext) {
        Some(d) => d,
        None => {
            assert(spec_thumbs_view(Seq::<ThumbnailOutput>::empty()) =~= seq![]);
            return Ok(Vec::new());
        },
    };
    let (w, h) = decoded_size(&d);
    let mut out: Vec<ThumbnailOutput> = Vec::new();
    let small = thumbnail(&d, ThumbnailSize::Thumb256, w, h)?;
    out.push(small);
    let large = thumbnail(&d, ThumbnailSize::Thumb1024, w, h)?;
    out.push(large);
    assert(spec_thumbs_view(out@) =~= seq![
        (out@[0].size, out@[0].bytes@, out@[0].width, out@[0].height),
        (out@[1].size, out@[1].bytes@, out@[1].width, out@[1].height),
    ]);
    Ok(out)
}

/// Law: the two thumbnails are 256 and 1024 pixels on their longer side,
/// stored as `thumb256` and `thumb1024`; a source fits a size when neither
/// side is longer than it.
pub proof fn lemma_thumbnail_sizes(w: u32, h: u32)
    ensures
        ThumbnailSize::Thumb256.max_dim_spec() == 256,
        ThumbnailSize::Thumb1024.max_dim_spec() == 1024,
        spec_thumbnail(seq![], None, ThumbnailSize::Thumb256, w, h) == if w <= 256 && h <= 256 {
            spec_encode_webp(seq![], None)
        } else {
            spec_resize_webp(seq![], None, 256)
        },
{
}

} // verus!
