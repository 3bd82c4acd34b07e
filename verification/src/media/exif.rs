//! The EXIF block of a photo: its fields as the `exif` crate reads them
//! from the container's bytes, and what the vault keeps of them (camera
//! model, lens, pixel dimensions, capture time). The GPS position is
//! floating point and is read outside this library.

use crate::export::{push_decimal, spec_decimal};
use crate::media::probe::{clean_exif_text, spec_taken_at, spec_trim_quotes, taken_at};
use exif::Context;
use vstd::prelude::*;

verus! {

/// Which numbering a tag number belongs to.
#[derive(Debug, Clone, Copy, PartialEq, Eq)]
pub enum ExifContext {
    Tiff,
    Exif,
    Gps,
    Interop,
    /// A numbering the `exif` crate added after this list was written.
    Other,
}

/// One field of an EXIF block.
#[derive(Debug, Clone, PartialEq, Eq)]
pub struct ExifField {
    /// The directory the field stands in: 0 for the primary image.
    pub ifd: u16,
    pub context: ExifContext,
    pub number: u16,
    /// The tag's name, as the `exif` crate displays it.
    pub tag_name: String,
    /// The value as the `exif` crate displays it.
    pub text: String,
    /// The value with its unit, as the `exif` crate displays it.
    pub unit_text: String,
    /// The first unsigned integer of the value, if it holds one.
    pub first_uint: Option<u32>,
}

/// The mathematical model of an [`ExifField`].
pub struct ExifFieldView {
    pub ifd: u16,
    pub context: ExifContext,
    pub number: u16,
    pub tag_name: Seq<char>,
    pub text: Seq<char>,
    pub unit_text: Seq<char>,
    pub first_uint: Option<u32>,
}

impl View for ExifField {
    type V = ExifFieldView;

    open spec fn view(&self) -> ExifFieldView {
        ExifFieldView {
            ifd: self.ifd,
            context: self.context,
            number: self.number,
            tag_name: self.tag_name@,
            text: self.text@,
            unit_text: self.unit_text@,
            first_uint: self.first_uint,
        }
    }
}

/// The fields of a list, by their models.
pub open spec fn spec_fields(fs: Seq<ExifField>) -> Seq<ExifFieldView> {
    fs.map_values(|f: ExifField| f@)
}

/// The fields of an optional list, by their models.
pub open spec fn spec_fields_of(r: Option<Vec<ExifField>>) -> Option<Seq<ExifFieldView>> {
    match r {
        Some(v) => Some(spec_fields(v@)),
        None => None,
    }
}

/// The fields, in the order of the block, that
/// `exif::Reader::read_from_container` finds in a file's bytes; `None` where
/// it reports an error.
pub uninterp spec fn spec_exif_fields(bytes: Seq<u8>) -> Option<Seq<ExifFieldView>>;

/// Calls `exif::Reader::read_from_container` on the bytes and lists the
/// fields of the result in order (`Exif::fields`), each with its directory,
/// tag, the tag's displayed name, displayed value (`display_value`, and `with_unit` against the
/// block) and first unsigned integer (`Value::get_uint(0)`). The contract
/// claims only that the result is the function of the bytes named
/// `spec_exif_fields`.
#[verifier::external_body]
fn exif_fields(bytes: &[u8]) -> (r: Option<Vec<ExifField>>)
    ensures
        spec_fields_of(r) == spec_exif_fields(bytes@),
{
    let exif = exif::Reader::new().read_from_container(&mut std::io::Cursor::new(bytes)).ok()?;
    let mut out = Vec::new();
    for f in exif.fields() {
        let context = match f.tag.0 {
            Context::Tiff => ExifContext::Tiff,
            Context::Exif => ExifContext::Exif,
            Context::Gps => ExifContext::Gps,
            Context::Interop => ExifContext::Interop,
            _ => ExifContext::Other,
        };
        let (tag_name, text) = (f.tag.to_string(), f.display_value().to_string());
        let unit_text = f.display_value().with_unit(&exif).to_string();
        out.push(ExifField { ifd: f.ifd_num.0, context, number: f.tag.1, tag_name, text, unit_text, first_uint: f.value.get_uint(0) });
    }
    Some(out)
}

/// The name of directory `ifd`: `primary`, `thumbnail`, else `IFD<n>`.
pub open spec fn spec_ifd_name(ifd: u16) -> Seq<char> {
    if ifd == 0 {
        "primary"@
    } else if ifd == 1 {
        "thumbnail"@
    } else {
        "IFD"@ + spec_decimal(ifd as nat)
    }
}

/// The key a field is listed under in the asset's EXIF summary:
/// `<directory>::<tag>`.
pub open spec fn spec_field_key(f: ExifFieldView) -> Seq<char> {
    spec_ifd_name(f.ifd) + "::"@ + f.tag_name
}

/// The key a field is listed under in the asset's EXIF summary.
pub fn field_key(f: &ExifField) -> (k: String)
    ensures
        k@ == spec_field_key(f@),
{
    proof {
        reveal_strlit("primary");
        reveal_strlit("thumbnail");
        reveal_strlit("IFD");
        reveal_strlit("::");
    }
    let mut k = String::new();
    if f.ifd == 0 {
        k.push_str("primary");
    } else if f.ifd == 1 {
        k.push_str("thumbnail");
    } else {
        k.push_str("IFD");
        push_decimal(&mut k, f.ifd as u64);
    }
    k.push_str("::");
    k.push_str(f.tag_name.as_str());
    k
}

/// What the vault keeps of an EXIF block.
#[derive(Debug, Clone, PartialEq, Eq)]
pub struct ExifSummary {
    /// The camera model, unquoted; absent when empty.
    pub device: Option<String>,
    /// The lens model, unquoted; absent when empty.
    pub lens: Option<String>,
    pub width: Option<u32>,
    pub height: Option<u32>,
    /// The capture time, UNIX seconds, read as UTC.
    pub taken_at_utc: Option<i64>,
}

/// The mathematical model of an [`ExifSummary`].
pub struct ExifSummaryView {
    pub device: Option<Seq<char>>,
    pub lens: Option<Seq<char>>,
    pub width: Option<u32>,
    pub height: Option<u32>,
    pub taken_at_utc: Option<i64>,
}

/// The text of an optional string.
pub open spec fn spec_opt_text(s: Option<String>) -> Option<Seq<char>> {
    match s {
        Some(t) => Some(t@),
        None => None,
    }
}

impl View for ExifSummary {
    type V = ExifSummaryView;

    open spec fn view(&self) -> ExifSummaryView {
        ExifSummaryView {
            device: spec_opt_text(self.device),
            lens: spec_opt_text(self.lens),
            width: self.width,
            height: self.height,
            taken_at_utc: self.taken_at_utc,
        }
    }
}

/// The tag of the camera model: `Model`.
pub const MODEL: (ExifContext, u16) = (ExifContext::Tiff, 0x110);
/// The tag of the lens model: `LensModel`.
pub const LENS_MODEL: (ExifContext, u16) = (ExifContext::Exif, 0xa434);
/// The tag of the pixel width: `PixelXDimension`.
pub const PIXEL_X: (ExifContext, u16) = (ExifContext::Exif, 0xa002);
/// The tag of the pixel height: `PixelYDimension`.
pub const PIXEL_Y: (ExifContext, u16) = (ExifContext::Exif, 0xa003);
/// The tag of the capture time: `DateTimeOriginal`.
pub const DATE_TIME_ORIGINAL: (ExifContext, u16) = (ExifContext::Exif, 0x9003);
/// The tag of the last change: `DateTime`.
pub const DATE_TIME: (ExifContext, u16) = (ExifContext::Tiff, 0x132);

/// Whether `f` is the field `tag` of the primary image.
pub open spec fn spec_is_primary(f: ExifFieldView, tag: (ExifContext, u16)) -> bool {
    f.ifd == 0 && f.context == tag.0 && f.number == tag.1
}

/// The field `tag` of the primary image: the last one of the block, as the
/// `exif` crate's lookup by tag keeps the last of duplicates.
pub open spec fn spec_primary(fs: Seq<ExifFieldView>, tag: (ExifContext, u16)) -> Option<ExifFieldView>
    decreases fs.len(),
{
    if fs.len() == 0 {
        None
    } else if spec_is_primary(fs.last(), tag) {
        Some(fs.last())
    } else {
        spec_primary(fs.drop_last(), tag)
    }
}

/// The unquoted text with unit of a field, absent when empty.
pub open spec fn spec_clean_text(f: Option<ExifFieldView>) -> Option<Seq<char>> {
    match f {
        Some(x) => if spec_trim_quotes(x.unit_text).len() > 0 {
            Some(spec_trim_quotes(x.unit_text))
        } else {
            None
        },
        None => None,
    }
}

/// A dimension known from the image itself, else from its field.
pub open spec fn spec_dimension(known: Option<u32>, f: Option<ExifFieldView>) -> Option<u32> {
    match known {
        Some(d) => Some(d),
        None => match f {
            Some(x) => x.first_uint,
            None => None,
        },
    }
}

/// The displayed value of a field.
pub open spec fn spec_text_of(f: Option<ExifFieldView>) -> Option<Seq<char>> {
    match f {
        Some(x) => Some(x.text),
        None => None,
    }
}

/// What the vault keeps of the fields `fs`, given the dimensions that the
/// image itself gave.
pub open spec fn spec_exif_summary(fs: Seq<ExifFieldView>, width: Option<u32>, height: Option<u32>) -> ExifSummaryView {
    ExifSummaryView {
        device: spec_clean_text(spec_primary(fs, MODEL)),
        lens: spec_clean_text(spec_primary(fs, LENS_MODEL)),
        width: spec_dimension(width, spec_primary(fs, PIXEL_X)),
        height: spec_dimension(height, spec_primary(fs, PIXEL_Y)),
        taken_at_utc: spec_taken_at(
            spec_text_of(spec_primary(fs, DATE_TIME_ORIGINAL)),
            spec_text_of(spec_primary(fs, DATE_TIME)),
        ),
    }
}

fn same_context(a: ExifContext, b: ExifContext) -> (r: bool)
    ensures
        r == (a == b),
{
    match (a, b) {
        (ExifContext::Tiff, ExifContext::Tiff) => true,
        (ExifContext::Exif, ExifContext::Exif) => true,
        (ExifContext::Gps, ExifContext::Gps) => true,
        (ExifContext::Interop, ExifContext::Interop) => true,
        (ExifContext::Other, ExifContext::Other) => true,
        _ => false,
    }
}

/// The field `tag` of the primary image.
pub fn primary_field(fields: &[ExifField], tag: (ExifContext, u16)) -> (r: Option<&ExifField>)
    ensures
        match r {
            Some(f) => spec_primary(spec_fields(fields@), tag) == Some(f@),
            None => spec_primary(spec_fields(fields@), tag) is None,
        },
{
    let ghost fs = spec_fields(fields@);
    let mut i: usize = fields.len();
    assert(fs.subrange(0, i as int) =~= fs);
    while i > 0
        invariant
            i <= fields@.len(),
            fs == spec_fields(fields@),
            spec_primary(fs, tag) == spec_primary(fs.subrange(0, i as int), tag),
        decreases i,
    {
        let ghost pre = fs.subrange(0, i as int);
        assert(pre.last() == fields@[i - 1]@);
        assert(pre.drop_last() =~= fs.subrange(0, i - 1));
        let f = &fields[i - 1];
        if f.ifd == 0 && same_context(f.context, tag.0) && f.number == tag.1 {
            return Some(f);
        }
        i = i - 1;
    }
    assert(fs.subrange(0, 0).len() == 0);
    None
}

/// The unquoted text with unit of a field, absent when empty.
fn clean_text(f: Option<&ExifField>) -> (r: Option<String>)
    ensures
        spec_opt_text(r) == spec_clean_text(match f {
            Some(x) => Some(x@),
            None => None,
        }),
{
    match f {
        Some(x) => clean_exif_text(x.unit_text.as_str()),
        None => None,
    }
}

/// A dimension known from the image itself, else from its field.
fn dimension(known: Option<u32>, f: Option<&ExifField>) -> (r: Option<u32>)
    ensures
        r == spec_dimension(known, match f {
            Some(x) => Some(x@),
            None => None,
        }),
{
    match known {
        Some(d) => Some(d),
        None => match f {
            Some(x) => x.first_uint,
            None => None,
        },
    }
}

/// What the vault keeps of the fields of an EXIF block: the camera model
/// and the lens model, unquoted; the width and height that the image
/// itself gave, else those of the block; the capture time, from
/// `DateTimeOriginal` where it reads as a time, else from `DateTime`.
pub fn exif_summary(fields: &[ExifField], width: Option<u32>, height: Option<u32>) -> (s: ExifSummary)
    ensures
        s@ == spec_exif_summary(spec_fields(fields@), width, height),
{
    let original = primary_field(fields, DATE_TIME_ORIGINAL);
    let modified = primary_field(fields, DATE_TIME);
    let taken = taken_at(
        match original {
            Some(f) => Some(f.text.as_str()),
            None => None,
        },
        match modified {
            Some(f) => Some(f.text.as_str()),
            None => None,
        },
    );
    ExifSummary {
        device: clean_text(primary_field(fields, MODEL)),
        lens: clean_text(primary_field(fields, LENS_MODEL)),
        width: dimension(width, primary_field(fields, PIXEL_X)),
        height: dimension(height, primary_field(fields, PIXEL_Y)),
        taken_at_utc: taken,
    }
}

/// The EXIF block of a file's bytes, where the `exif` crate can read one:
/// its fields, and what the vault keeps of them given the dimensions that
/// the image itself gave.
pub fn probe_exif(bytes: &[u8], width: Option<u32>, height: Option<u32>) -> (r: Option<(Vec<ExifField>, ExifSummary)>)
    ensures
        match spec_exif_fields(bytes@) {
            Some(fs) => r matches Some(p) && spec_fields(p.0@) == fs
                && p.1@ == spec_exif_summary(fs, width, height),
            None => r is None,
        },
{
    match exif_fields(bytes) {
        Some(fields) => {
            let s = exif_summary(fields.as_slice(), width, height);
            Some((fields, s))
        },
        None => None,
    }
}

proof fn lemma_primary_last(fs: Seq<ExifFieldView>, tag: (ExifContext, u16))
    ensures
        spec_primary(fs, tag) matches Some(f) ==> exists|i: int| 0 <= i < fs.len() && fs[i] == f && f.ifd == 0
            && f.context == tag.0 && f.number == tag.1 && forall|j: int| i < j < fs.len() ==> !(fs[j].ifd == 0
            && fs[j].context == tag.0 && fs[j].number == tag.1),
        spec_primary(fs, tag) is None ==> forall|i: int| 0 <= i < fs.len() ==> !(fs[i].ifd == 0 && fs[i].context
            == tag.0 && fs[i].number == tag.1),
    decreases fs.len(),
{
    if fs.len() > 0 {
        let pre = fs.drop_last();
        lemma_primary_last(pre, tag);
        let l = fs.len() - 1;
        if spec_is_primary(fs.last(), tag) {
            assert(fs[l] == fs.last());
        } else {
            match spec_primary(pre, tag) {
                Some(f) => {
                    let i = choose|i: int| 0 <= i < pre.len() && pre[i] == f && f.ifd == 0 && f.context == tag.0
                        && f.number == tag.1 && forall|j: int| i < j < pre.len() ==> !(pre[j].ifd == 0
                        && pre[j].context == tag.0 && pre[j].number == tag.1);
                    assert(fs[i] == f);
                    assert forall|j: int| i < j < fs.len() implies !(fs[j].ifd == 0 && fs[j].context == tag.0
                        && fs[j].number == tag.1) by {
                        if j < pre.len() {
                            assert(fs[j] == pre[j]);
                        } else {
                            assert(fs[j] == fs.last());
                        }
                    }
                },
                None => {
                    assert forall|i: int| 0 <= i < fs.len() implies !(fs[i].ifd == 0 && fs[i].context == tag.0
                        && fs[i].number == tag.1) by {
                        if i < pre.len() {
                            assert(fs[i] == pre[i]);
                        } else {
                            assert(fs[i] == fs.last());
                        }
                    }
                },
            }
        }
    }
}

/// Law: what the vault keeps of an EXIF block, tag by tag. Each value is
/// read from the last field of the primary image (directory 0) with the
/// tag: the camera model from TIFF tag 0x110 (`Model`) and the lens from
/// Exif tag 0xA434 (`LensModel`), unquoted and absent when empty; the width
/// and height, where the image did not give them, from Exif tags 0xA002 and
/// 0xA003 (`PixelXDimension`, `PixelYDimension`); the capture time from Exif
/// tag 0x9003 (`DateTimeOriginal`), else TIFF tag 0x132 (`DateTime`).
pub proof fn lemma_summary_tags(fs: Seq<ExifFieldView>, width: Option<u32>, height: Option<u32>)
    ensures
        spec_exif_summary(fs, width, height).device == spec_clean_text(spec_primary(fs, (ExifContext::Tiff, 0x110u16))),
        spec_exif_summary(fs, width, height).lens == spec_clean_text(spec_primary(fs, (ExifContext::Exif, 0xa434u16))),
        width is Some ==> spec_exif_summary(fs, width, height).width == width,
        width is None ==> spec_exif_summary(fs, width, height).width == match spec_primary(
            fs,
            (ExifContext::Exif, 0xa002u16),
        ) {
            Some(f) => f.first_uint,
            None => None,
        },
        height is Some ==> spec_exif_summary(fs, width, height).height == height,
        height is None ==> spec_exif_summary(fs, width, height).height == match spec_primary(
            fs,
            (ExifContext::Exif, 0xa003u16),
        ) {
            Some(f) => f.first_uint,
            None => None,
        },
        spec_exif_summary(fs, width, height).taken_at_utc == spec_taken_at(
            spec_text_of(spec_primary(fs, (ExifContext::Exif, 0x9003u16))),
            spec_text_of(spec_primary(fs, (ExifContext::Tiff, 0x132u16))),
        ),
        forall|f: ExifFieldView| #[trigger] spec_clean_text(Some(f)) == (if spec_trim_quotes(f.unit_text).len() > 0 {
            Some(spec_trim_quotes(f.unit_text))
        } else {
            None
        }),
        forall|tag: (ExifContext, u16)| #[trigger] spec_primary(fs, tag) is Some ==> spec_primary(fs, tag)->0.ifd == 0
            && spec_primary(fs, tag)->0.context == tag.0 && spec_primary(fs, tag)->0.number == tag.1,
{
    assert forall|tag: (ExifContext, u16)| #[trigger] spec_primary(fs, tag) is Some implies spec_primary(fs, tag)->0.ifd
        == 0 && spec_primary(fs, tag)->0.context == tag.0 && spec_primary(fs, tag)->0.number == tag.1 by {
        lemma_primary_last(fs, tag);
    }
}

/// Law: the field chosen for a tag is the last field of the primary image
/// with that tag, and there is none exactly when no field of the primary
/// image has it.
pub proof fn lemma_primary_rule(fs: Seq<ExifFieldView>, tag: (ExifContext, u16))
    ensures
        spec_primary(fs, tag) matches Some(f) ==> exists|i: int| 0 <= i < fs.len() && fs[i] == f && f.ifd == 0
            && f.context == tag.0 && f.number == tag.1 && forall|j: int| i < j < fs.len() ==> !(fs[j].ifd == 0
            && fs[j].context == tag.0 && fs[j].number == tag.1),
        spec_primary(fs, tag) is None <==> forall|i: int| 0 <= i < fs.len() ==> !(fs[i].ifd == 0 && fs[i].context
            == tag.0 && fs[i].number == tag.1),
{
    lemma_primary_last(fs, tag);
}

/// Law: a field is listed in the EXIF summary as `primary::<tag>` in the
/// primary image's directory, `thumbnail::<tag>` in the thumbnail's, and
/// `IFD<n>::<tag>` in any other.
pub proof fn lemma_field_key_rule(f: ExifFieldView)
    ensures
        f.ifd == 0 ==> spec_field_key(f) == "primary"@ + "::"@ + f.tag_name,
        f.ifd == 1 ==> spec_field_key(f) == "thumbnail"@ + "::"@ + f.tag_name,
        f.ifd > 1 ==> spec_field_key(f) == "IFD"@ + spec_decimal(f.ifd as nat) + "::"@ + f.tag_name,
{
}

} // verus!
