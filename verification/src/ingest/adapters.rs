//! Ingest adapters: which files of a source are ingested, and the naming
//! conventions of iPhone folders and Google Takeout dumps.

use crate::paths::{
    ext_lower, file_name_of, parent_of, push_segment, spec_ext_lower, spec_file_name, spec_parent,
    spec_push,
};
use crate::error::{spec_app_message, AppError};
use crate::text::{chars_of, concat, ends_with_lit, eq_lit, slice_to_vec, string_of};
use vstd::prelude::*;

verus! {

/// Generic recursive folder ingest.
pub struct GenericAdapter;

/// Google Photos Takeout: reconstructs XMP sidecars from Takeout's JSON
/// files, then ingests like [`GenericAdapter`].
pub struct GoogleTakeoutAdapter {
    inner: GenericAdapter,
}

/// iPhone `DCIM` folders: detects pairs, then ingests like
/// [`GenericAdapter`].
pub struct IPhoneFolderAdapter {
    inner: GenericAdapter,
}

impl GenericAdapter {
    pub fn new() -> Self {
        GenericAdapter
    }

    /// The adapter's kind, as recorded with a source.
    pub fn kind(&self) -> (k: &'static str)
        ensures
            k@ == "generic"@,
    {
        "generic"
    }
}

impl GoogleTakeoutAdapter {
    pub fn new() -> Self {
        GoogleTakeoutAdapter { inner: GenericAdapter::new() }
    }

    /// The adapter that ingests once the sidecars are reconstructed.
    pub fn inner(&self) -> &GenericAdapter {
        &self.inner
    }

    /// The adapter's kind, as recorded with a source.
    pub fn kind(&self) -> (k: &'static str)
        ensures
            k@ == "google_takeout"@,
    {
        "google_takeout"
    }
}

impl IPhoneFolderAdapter {
    pub fn new() -> Self {
        IPhoneFolderAdapter { inner: GenericAdapter::new() }
    }

    /// The adapter that ingests once pairs are detected.
    pub fn inner(&self) -> &GenericAdapter {
        &self.inner
    }

    /// The adapter's kind, as recorded with a source.
    pub fn kind(&self) -> (k: &'static str)
        ensures
            k@ == "iphone_folder"@,
    {
        "iphone_folder"
    }
}

// ------------------------------------------------------------ candidates

/// The lowercased extensions of the media the vault ingests.
pub open spec fn spec_is_media_ext(e: Seq<char>) -> bool {
    e == "jpg"@ || e == "jpeg"@ || e == "png"@ || e == "heic"@ || e == "heif"@ || e == "webp"@
        || e == "bmp"@ || e == "gif"@ || e == "tif"@ || e == "tiff"@ || e == "mp4"@ || e == "mov"@
        || e == "m4v"@ || e == "mkv"@ || e == "webm"@ || e == "cr2"@ || e == "cr3"@ || e == "nef"@
        || e == "arw"@ || e == "dng"@ || e == "raf"@ || e == "orf"@ || e == "rw2"@
}

/// Whether the file name of `p` starts with a dot.
pub open spec fn spec_is_hidden(p: Seq<char>) -> bool {
    spec_file_name(p) matches Some(n) && n.len() > 0 && n[0] == '.'
}

/// Whether `p` is a file the ingest picks up: not hidden, with a media
/// extension (in any case).
pub open spec fn spec_is_candidate(p: Seq<char>) -> bool {
    !spec_is_hidden(p) && (spec_ext_lower(p) matches Some(e) && spec_is_media_ext(e))
}

/// Law: a path is an ingest candidate exactly when its file name does not
/// start with a dot and its extension, lowercased, is one of the image,
/// video and RAW extensions `jpg`, `jpeg`, `png`, `heic`, `heif`, `webp`,
/// `bmp`, `gif`, `tif`, `tiff`, `mp4`, `mov`, `m4v`, `mkv`, `webm`, `cr2`,
/// `cr3`, `nef`, `arw`, `dng`, `raf`, `orf`, `rw2`.
pub proof fn lemma_candidate_extensions(p: Seq<char>)
    ensures
        spec_is_candidate(p) <==> (!(spec_file_name(p) matches Some(n) && n.len() > 0 && n[0] == '.') && (spec_ext_lower(p) matches Some(e)
            && (e == "jpg"@ || e == "jpeg"@ || e == "png"@ || e == "heic"@ || e == "heif"@ || e == "webp"@ || e == "bmp"@ || e == "gif"@ || e == "tif"@ || e == "tiff"@ || e == "mp4"@ || e == "mov"@ || e == "m4v"@ || e == "mkv"@ || e == "webm"@ || e == "cr2"@ || e == "cr3"@ || e == "nef"@ || e == "arw"@ || e == "dng"@ || e == "raf"@ || e == "orf"@ || e == "rw2"@))),
{
}

fn is_media_ext(e: &[char]) -> (b: bool)
    ensures
        b == spec_is_media_ext(e@),
{
    eq_lit(e, "jpg") || eq_lit(e, "jpeg") || eq_lit(e, "png") || eq_lit(e, "heic") || eq_lit(
        e,
        "heif",
    ) || eq_lit(e, "webp") || eq_lit(e, "bmp") || eq_lit(e, "gif") || eq_lit(e, "tif") || eq_lit(
        e,
        "tiff",
    ) || eq_lit(e, "mp4") || eq_lit(e, "mov") || eq_lit(e, "m4v") || eq_lit(e, "mkv") || eq_lit(
        e,
        "webm",
    ) || eq_lit(e, "cr2") || eq_lit(e, "cr3") || eq_lit(e, "nef") || eq_lit(e, "arw") || eq_lit(
        e,
        "dng",
    ) || eq_lit(e, "raf") || eq_lit(e, "orf") || eq_lit(e, "rw2")
}

/// Whether `path` is a media file the ingest picks up.
pub fn is_candidate(path: &str) -> (b: bool)
    ensures
        b == spec_is_candidate(path@),
{
    let hidden = match file_name_of(path) {
        Some(n) => {
            let c = chars_of(n.as_str());
            c.len() > 0 && c[0] == '.'
        },
        None => false,
    };
    if hidden {
        return false;
    }
    match ext_lower(path) {
        Some(e) => is_media_ext(&e),
        None => false,
    }
}

// --------------------------------------------------------------- iPhone

/// Whether a directory name looks like an iPhone camera-roll directory:
/// one or more ASCII digits followed by `APPLE` (`100APPLE`, `101APPLE`,
/// ...).
pub open spec fn spec_is_apple_dir_name(n: Seq<char>) -> bool {
    &&& "APPLE"@.is_suffix_of(n)
    &&& n.len() > 5
    &&& crate::text::spec_all_ascii_digits(n.subrange(0, n.len() - 5))
}

/// Whether a first-level directory name marks a `DCIM` tree.
pub fn is_apple_dir_name(name: &str) -> (b: bool)
    ensures
        b == spec_is_apple_dir_name(name@),
{
    proof { reveal_strlit("APPLE"); }
    let n = chars_of(name);
    if !ends_with_lit(&n, "APPLE") || n.len() <= 5 {
        return false;
    }
    let l = n.len() - 5;
    let t = slice_to_vec(&n, 0, l);
    crate::text::all_ascii_digits(&t)
}

/// Whether a folder looks like an iPhone `DCIM` tree: one of the names of
/// the directories directly under it (under its `DCIM` folder when it has
/// one) is `<digits>APPLE`.
pub fn looks_like_dcim_tree(dir_names: &[String]) -> (b: bool)
    ensures
        b == exists|i: int| 0 <= i < dir_names@.len() && spec_is_apple_dir_name(#[trigger] dir_names@[i]@),
{
    let mut i: usize = 0;
    while i < dir_names.len()
        invariant
            i <= dir_names@.len(),
            forall|j: int| 0 <= j < i ==> !spec_is_apple_dir_name(#[trigger] dir_names@[j]@),
        decreases dir_names@.len() - i,
    {
        if is_apple_dir_name(dir_names[i].as_str()) {
            return true;
        }
        i = i + 1;
    }
    false
}

/// Whether `name` names one of the ingest adapters a source may use:
/// `generic`, `iphone_folder` or `google_takeout`.
pub fn is_known_adapter(name: &str) -> (b: bool)
    ensures
        b == (name@ == "generic"@ || name@ == "iphone_folder"@ || name@ == "google_takeout"@),
{
    let n = chars_of(name);
    eq_lit(&n, "generic") || eq_lit(&n, "iphone_folder") || eq_lit(&n, "google_takeout")
}

/// The answer to a request to add a source: refused as a bad request when
/// the root is not a directory, then when the adapter is unknown, then
/// refused while the vault is locked.
pub open spec fn spec_add_source_check(root_is_dir: bool, adapter: Seq<char>, unlocked: bool) -> Result<(), Seq<char>> {
    if !root_is_dir {
        Err("bad request: root is not a directory"@)
    } else if !(adapter == "generic"@ || adapter == "iphone_folder"@ || adapter == "google_takeout"@) {
        Err("bad request: unknown adapter: "@ + adapter)
    } else if !unlocked {
        Err("locked"@)
    } else {
        Ok(())
    }
}

/// Check a request to add a source, in the order the checks are made:
/// the root must be a directory, the adapter known, the vault unlocked.
pub fn check_add_source(root_is_dir: bool, adapter: &str, unlocked: bool) -> (r: Result<(), AppError>)
    ensures
        match r {
            Ok(()) => spec_add_source_check(root_is_dir, adapter@, unlocked) == Ok::<(), Seq<char>>(()),
            Err(e) => spec_add_source_check(root_is_dir, adapter@, unlocked) == Err::<(), Seq<char>>(spec_app_message(e)),
        },
        r is Err ==> (r matches Err(AppError::BadRequest(_)) || r matches Err(AppError::Locked)),
{
    if !root_is_dir {
        let m = "root is not a directory".to_string();
        proof { reveal_strlit("root is not a directory"); reveal_strlit("bad request: "); reveal_strlit("bad request: root is not a directory"); }
        assert("bad request: "@ + m@ =~= "bad request: root is not a directory"@);
        return Err(AppError::BadRequest(m));
    }
    if !is_known_adapter(adapter) {
        let mut m = "unknown adapter: ".to_string();
        m.push_str(adapter);
        proof { reveal_strlit("unknown adapter: "); reveal_strlit("bad request: "); reveal_strlit("bad request: unknown adapter: "); }
        assert("bad request: "@ + m@ =~= "bad request: unknown adapter: "@ + adapter@);
        return Err(AppError::BadRequest(m));
    }
    if !unlocked {
        return Err(AppError::Locked);
    }
    Ok(())
}

// --------------------------------------------------------------- Takeout

/// The two places Takeout puts the JSON of `media`, in the order they are
/// tried: `<name>.json` and `<name>.supplemental-metadata.json` next to it.
pub open spec fn spec_takeout_candidates(media: Seq<char>) -> Option<(Seq<char>, Seq<char>)> {
    match (spec_parent(media), spec_file_name(media)) {
        (Some(parent), Some(name)) => Some(
            (
                spec_push(parent, name + ".json"@),
                spec_push(parent, name + ".supplemental-metadata.json"@),
            ),
        ),
        _ => None,
    }
}

/// Where Takeout may have put the JSON of `media`; the first that exists is
/// its sidecar.
pub fn takeout_sidecar_candidates(media: &str) -> (r: Option<(String, String)>)
    ensures
        match r {
            Some((a, b)) => spec_takeout_candidates(media@) == Some((a@, b@)),
            None => spec_takeout_candidates(media@) is None,
        },
{
    let parent = match parent_of(media) {
        Some(p) => p,
        None => return None,
    };
    let name = match file_name_of(media) {
        Some(n) => n,
        None => return None,
    };
    let nc = chars_of(name.as_str());
    let j1 = chars_of(".json");
    let j2 = chars_of(".supplemental-metadata.json");
    let a = string_of(&concat(&nc, &j1));
    let b = string_of(&concat(&nc, &j2));
    Some((push_segment(parent.as_str(), a.as_str()), push_segment(parent.as_str(), b.as_str())))
}

/// Law: a directory name is an iPhone camera folder exactly when it is one
/// or more ASCII digits followed by `APPLE` (such as `100APPLE`).
pub proof fn lemma_apple_dir_rule(d: Seq<char>)
    ensures
        (d.len() > 0 && forall|i: int| 0 <= i < d.len() ==> '0' <= #[trigger] d[i] <= '9') ==> spec_is_apple_dir_name(
            d + "APPLE"@,
        ),
        forall|n: Seq<char>| #[trigger] spec_is_apple_dir_name(n) ==> n.len() > 5 && n.subrange(n.len() - 5, n.len() as int)
            == "APPLE"@ && forall|i: int| 0 <= i < n.len() - 5 ==> '0' <= #[trigger] n[i] <= '9',
{
    reveal_strlit("APPLE");
    let n = d + "APPLE"@;
    assert(n.subrange(n.len() - 5, n.len() as int) =~= "APPLE"@);
    assert(n.subrange(0, n.len() - 5) =~= d);
    assert forall|n: Seq<char>| #[trigger] spec_is_apple_dir_name(n) implies n.len() > 5 && n.subrange(
        n.len() - 5,
        n.len() as int,
    ) == "APPLE"@ && forall|i: int| 0 <= i < n.len() - 5 ==> '0' <= #[trigger] n[i] <= '9' by {
        assert forall|i: int| 0 <= i < n.len() - 5 implies '0' <= #[trigger] n[i] <= '9' by {
            assert(n.subrange(0, n.len() - 5)[i] == n[i]);
        }
    }
}

/// Law: the two Takeout JSON files of a media file are, next to it, its
/// file name followed by `.json` and by `.supplemental-metadata.json`.
pub proof fn lemma_takeout_candidates_rule(media: Seq<char>)
    ensures
        (spec_parent(media) matches Some(parent) && spec_file_name(media) matches Some(name)) ==> spec_takeout_candidates(
            media,
        ) == Some(
            (
                spec_push(spec_parent(media)->0, spec_file_name(media)->0 + ".json"@),
                spec_push(spec_parent(media)->0, spec_file_name(media)->0 + ".supplemental-metadata.json"@),
            ),
        ),
        (spec_parent(media) is None || spec_file_name(media) is None) ==> spec_takeout_candidates(media) is None,
{
}

/// Law: a request to add a source is refused, in this order, as a bad
/// request `root is not a directory`, as a bad request `unknown adapter: `
/// and the name (for anything but `generic`, `iphone_folder` and
/// `google_takeout`), and as locked; otherwise it goes on.
pub proof fn lemma_add_source_rule(root_is_dir: bool, adapter: Seq<char>, unlocked: bool)
    ensures
        !root_is_dir ==> spec_add_source_check(root_is_dir, adapter, unlocked) == Err::<(), Seq<char>>(
            "bad request: root is not a directory"@,
        ),
        root_is_dir && !(adapter == "generic"@ || adapter == "iphone_folder"@ || adapter == "google_takeout"@)
            ==> spec_add_source_check(root_is_dir, adapter, unlocked) == Err::<(), Seq<char>>(
            "bad request: unknown adapter: "@ + adapter,
        ),
        root_is_dir && (adapter == "generic"@ || adapter == "iphone_folder"@ || adapter == "google_takeout"@)
            ==> spec_add_source_check(root_is_dir, adapter, unlocked) == if unlocked {
            Ok::<(), Seq<char>>(())
        } else {
            Err("locked"@)
        },
{
}

} // verus!
