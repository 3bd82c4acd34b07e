//! Path components, as the library reads them off file paths.
//!
//! The file name and the parent directory come from `std::path`; the
//! extension and the stem are derived from the file name exactly as the
//! documentation of `Path::extension` and `Path::file_stem` describes them.

use crate::text::{chars_of, lemma_last_index_of_bounds, last_index_of, lower_ascii, slice_to_vec, spec_last_index_of, spec_lower_ascii};
use vstd::prelude::*;

verus! {

/// The view of an optional string.
pub open spec fn opt_view(o: Option<String>) -> Option<Seq<char>> {
    match o {
        Some(s) => Some(s@),
        None => None,
    }
}

/// The final component of `path`, as `Path::file_name` returns it.
pub uninterp spec fn spec_file_name(path: Seq<char>) -> Option<Seq<char>>;

/// The parent of `path`, as `Path::parent` returns it.
pub uninterp spec fn spec_parent(path: Seq<char>) -> Option<Seq<char>>;

/// `path` with its extension replaced by `ext`, as `PathBuf::set_extension`
/// leaves it.
pub uninterp spec fn spec_set_extension(path: Seq<char>, ext: Seq<char>) -> Seq<char>;

/// `base` with `segment` pushed onto it, as `PathBuf::push` leaves it.
pub uninterp spec fn spec_push(base: Seq<char>, segment: Seq<char>) -> Seq<char>;

/// Whether `s` holds no character that `std::path::is_separator` accepts
/// on some platform: `/` everywhere, and `\` on Windows.
pub open spec fn spec_no_separator(s: Seq<char>) -> bool {
    forall|i: int| 0 <= i < s.len() ==> s[i] != '/' && s[i] != '\\'
}

/// Calls `std::path::Path::file_name`. The contract claims only that the
/// result is the function of the path named `spec_file_name`.
#[verifier::external_body]
pub fn file_name_of(path: &str) -> (r: Option<String>)
    ensures
        opt_view(r) == spec_file_name(path@),
{
    std::path::Path::new(path).file_name().map(|n| n.to_string_lossy().into_owned())
}

/// Calls `std::path::Path::parent`. The contract claims only that the result
/// is the function of the path named `spec_parent`.
#[verifier::external_body]
pub fn parent_of(path: &str) -> (r: Option<String>)
    ensures
        opt_view(r) == spec_parent(path@),
{
    std::path::Path::new(path).parent().map(|p| p.to_string_lossy().into_owned())
}

/// Calls `std::path::PathBuf::set_extension`. The contract claims only that
/// the result is the function of its arguments named `spec_set_extension`.
/// An extension holding a path separator of any platform is not admitted:
/// `set_extension` panics on one that `std::path::is_separator` accepts.
#[verifier::external_body]
pub fn with_extension(path: &str, ext: &str) -> (r: String)
    requires
        spec_no_separator(ext@),
    ensures
        r@ == spec_set_extension(path@, ext@),
{
    let mut p = std::path::PathBuf::from(path);
    p.set_extension(ext);
    p.to_string_lossy().into_owned()
}

/// Calls `std::path::PathBuf::push`. The contract claims only that the result
/// is the function of its arguments named `spec_push`.
#[verifier::external_body]
pub fn push_segment(base: &str, segment: &str) -> (r: String)
    ensures
        r@ == spec_push(base@, segment@),
{
    let mut p = std::path::PathBuf::from(base);
    p.push(segment);
    p.to_string_lossy().into_owned()
}

/// The extension of a file name: the part after its final `.`, unless the
/// name has no `.` or its only `.` is the first character.
pub open spec fn spec_extension_of_name(name: Seq<char>) -> Option<Seq<char>> {
    let k = spec_last_index_of(name, '.');
    if k <= 0 {
        None
    } else {
        Some(name.subrange(k + 1, name.len() as int))
    }
}

/// The stem of a file name: the part before its final `.`, or the whole name
/// when it has no `.` or its only `.` is the first character.
pub open spec fn spec_stem_of_name(name: Seq<char>) -> Seq<char> {
    let k = spec_last_index_of(name, '.');
    if k <= 0 {
        name
    } else {
        name.subrange(0, k)
    }
}

/// `Path::extension` of `path`.
pub open spec fn spec_extension(path: Seq<char>) -> Option<Seq<char>> {
    match spec_file_name(path) {
        Some(n) => spec_extension_of_name(n),
        None => None,
    }
}

/// `Path::file_stem` of `path`.
pub open spec fn spec_file_stem(path: Seq<char>) -> Option<Seq<char>> {
    match spec_file_name(path) {
        Some(n) => Some(spec_stem_of_name(n)),
        None => None,
    }
}

/// The extension of `path`, lowercased (ASCII).
pub open spec fn spec_ext_lower(path: Seq<char>) -> Option<Seq<char>> {
    match spec_extension(path) {
        Some(e) => Some(spec_lower_ascii(e)),
        None => None,
    }
}

/// The extension of a file name.
pub fn extension_of_name(name: &[char]) -> (r: Option<Vec<char>>)
    ensures
        match r {
            Some(e) => spec_extension_of_name(name@) == Some(e@),
            None => spec_extension_of_name(name@) is None,
        },
{
    proof { lemma_last_index_of_bounds(name@, '.'); }
    match last_index_of(name, '.') {
        Some(k) => {
            if k == 0 {
                None
            } else {
                assert(k < name.len());
                Some(slice_to_vec(name, k + 1, name.len()))
            }
        },
        None => None,
    }
}

/// The stem of a file name.
pub fn stem_of_name(name: &[char]) -> (r: Vec<char>)
    ensures
        r@ == spec_stem_of_name(name@),
{
    proof { lemma_last_index_of_bounds(name@, '.'); }
    match last_index_of(name, '.') {
        Some(k) => {
            if k == 0 {
                slice_to_vec(name, 0, name.len())
            } else {
                slice_to_vec(name, 0, k)
            }
        },
        None => slice_to_vec(name, 0, name.len()),
    }
}

/// The extension of `path`, lowercased (ASCII).
pub fn ext_lower(path: &str) -> (r: Option<Vec<char>>)
    ensures
        match r {
            Some(e) => spec_ext_lower(path@) == Some(e@),
            None => spec_ext_lower(path@) is None,
        },
{
    match file_name_of(path) {
        Some(n) => {
            let nc = chars_of(n.as_str());
            match extension_of_name(&nc) {
                Some(e) => Some(lower_ascii(&e)),
                None => None,
            }
        },
        None => None,
    }
}

/// The extension of `path`.
pub fn extension_of(path: &str) -> (r: Option<Vec<char>>)
    ensures
        match r {
            Some(e) => spec_extension(path@) == Some(e@),
            None => spec_extension(path@) is None,
        },
{
    match file_name_of(path) {
        Some(n) => {
            let nc = chars_of(n.as_str());
            extension_of_name(&nc)
        },
        None => None,
    }
}

/// The stem of `path`.
pub fn file_stem_of(path: &str) -> (r: Option<Vec<char>>)
    ensures
        match r {
            Some(s) => spec_file_stem(path@) == Some(s@),
            None => spec_file_stem(path@) is None,
        },
{
    match file_name_of(path) {
        Some(n) => {
            let nc = chars_of(n.as_str());
            Some(stem_of_name(&nc))
        },
        None => None,
    }
}

/// The vault root chosen from the environment: `$MV_VAULT_ROOT` when set,
/// else `media-vault` under `$XDG_DATA_HOME`, else under
/// `$HOME/.local/share`, else under the current directory.
pub open spec fn spec_vault_root(
    mv_vault_root: Option<Seq<char>>,
    xdg_data_home: Option<Seq<char>>,
    home: Option<Seq<char>>,
) -> Seq<char> {
    match mv_vault_root {
        Some(r) => r,
        None => {
            let base = match xdg_data_home {
                Some(x) => x,
                None => match home {
                    Some(h) => spec_push(h, ".local/share"@),
                    None => "."@,
                },
            };
            spec_push(base, "media-vault"@)
        },
    }
}

/// The vault root for the given values of `MV_VAULT_ROOT`, `XDG_DATA_HOME`
/// and `HOME` (each absent when unset).
pub fn vault_root(mv_vault_root: Option<&str>, xdg_data_home: Option<&str>, home: Option<&str>) -> (r: String)
    ensures
        r@ == spec_vault_root(
            match mv_vault_root { Some(x) => Some(x@), None => None },
            match xdg_data_home { Some(x) => Some(x@), None => None },
            match home { Some(x) => Some(x@), None => None },
        ),
{
    match mv_vault_root {
        Some(r) => r.to_owned(),
        None => {
            let base = match xdg_data_home {
                Some(x) => x.to_owned(),
                None => match home {
                    Some(h) => push_segment(h, ".local/share"),
                    None => ".".to_owned(),
                },
            };
            push_segment(base.as_str(), "media-vault")
        },
    }
}

/// Law: a file name with an extension is its stem, a `.`, and its
/// extension, the extension holding no `.`; a name has no extension when it
/// holds no `.` other than a leading one, and its stem is then the whole
/// name.
pub proof fn lemma_name_parts_rule(name: Seq<char>)
    ensures
        spec_extension_of_name(name) matches Some(e) ==> name == spec_stem_of_name(name) + seq!['.'] + e && spec_stem_of_name(
            name,
        ).len() > 0 && forall|i: int| 0 <= i < e.len() ==> e[i] != '.',
        spec_extension_of_name(name) is None ==> spec_stem_of_name(name) == name && forall|i: int| 0 < i < name.len()
            ==> name[i] != '.',
{
    crate::text::lemma_last_index_of_bounds(name, '.');
    let k = spec_last_index_of(name, '.');
    if k > 0 {
        let e = name.subrange(k + 1, name.len() as int);
        assert(name =~= name.subrange(0, k) + seq!['.'] + e);
        assert forall|i: int| 0 <= i < e.len() implies e[i] != '.' by {
            assert(e[i] == name[k + 1 + i]);
        }
    }
}

} // verus!
