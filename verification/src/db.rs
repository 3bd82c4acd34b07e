//! Rows of the vault database, as the library reads and writes them.
//! Every user-visible string is stored sealed (`*_ct` columns).

use crate::text::{chars_of, find_seq, lower_ascii, spec_find, spec_lower_ascii};
use vstd::prelude::*;

verus! {

/// One row of the `source` table.
#[derive(Debug, Clone)]
pub struct SourceRow {
    pub id: i64,
    pub name_ct: Vec<u8>,
    pub root_path_ct: Vec<u8>,
    pub device_hint_ct: Option<Vec<u8>>,
    pub imported_at: i64,
    pub bytes_total: i64,
    pub file_count: i64,
    pub linked_only: bool,
}

/// The columns of a new `asset` row.
pub struct AssetInsert<'a> {
    pub blake3_plaintext: &'a [u8; 32],
    pub mime: &'a str,
    pub bytes: i64,
    pub width: Option<i64>,
    pub height: Option<i64>,
    pub duration_ms: Option<i64>,
    pub taken_at_utc_day: Option<i64>,
    pub is_video: bool,
    pub is_raw: bool,
    pub is_screenshot: bool,
    pub is_live: bool,
    pub is_motion: bool,
    pub source_id: i64,
    pub cas_ref: &'a str,
    pub imported_at: i64,
    pub filename_ct: &'a [u8],
    pub taken_at_utc_ct: Option<&'a [u8]>,
    pub gps_ct: Option<&'a [u8]>,
    pub device_ct: Option<&'a [u8]>,
    pub lens_ct: Option<&'a [u8]>,
    pub exif_all_ct: Option<&'a [u8]>,
    pub wrapped_file_key: &'a [u8],
}

/// Whether an insert added a new asset or found one with the same
/// plaintext hash; either way, the asset's id.
#[derive(Debug, Clone, Copy, PartialEq, Eq)]
pub enum InsertResult {
    Inserted(i64),
    Existing(i64),
}

/// One entry of a timeline page.
#[derive(Debug, Clone)]
pub struct TimelineEntry {
    pub id: i64,
    pub taken_at_utc_day: Option<i64>,
    pub mime: String,
    pub cas_ref: String,
    pub is_video: bool,
    pub is_live: bool,
    pub wrapped_file_key: Vec<u8>,
}

/// One row of the `collection` table.
#[derive(Debug, Clone)]
pub struct CollectionRow {
    pub id: i64,
    pub owner_id: i64,
    pub kind: String,
    pub name_ct: Vec<u8>,
    pub has_password: bool,
    pub password_salt: Option<[u8; 16]>,
    pub created_at: i64,
}

/// One row of the `asset` table.
#[derive(Debug, Clone)]
pub struct AssetRow {
    pub id: i64,
    pub blake3_plaintext: [u8; 32],
    pub mime: String,
    pub bytes: i64,
    pub width: Option<i64>,
    pub height: Option<i64>,
    pub duration_ms: Option<i64>,
    pub taken_at_utc_day: Option<i64>,
    pub is_video: bool,
    pub is_raw: bool,
    pub is_screenshot: bool,
    pub is_live: bool,
    pub is_motion: bool,
    pub source_id: i64,
    pub cas_ref: String,
    pub imported_at: i64,
    pub filename_ct: Vec<u8>,
    pub taken_at_utc_ct: Option<Vec<u8>>,
    pub gps_ct: Option<Vec<u8>>,
    pub device_ct: Option<Vec<u8>>,
    pub lens_ct: Option<Vec<u8>>,
    pub exif_all_ct: Option<Vec<u8>>,
    pub wrapped_file_key: Vec<u8>,
}

/// The outcome of an `INSERT OR IGNORE` of an asset: a new asset when a row
/// was affected, else the existing asset with the same plaintext hash.
pub fn insert_result(affected: usize, id: i64) -> (r: InsertResult)
    ensures
        r == (if affected > 0 {
            InsertResult::Inserted(id)
        } else {
            InsertResult::Existing(id)
        }),
{
    if affected > 0 {
        InsertResult::Inserted(id)
    } else {
        InsertResult::Existing(id)
    }
}

/// A 16-byte column value, if the blob has exactly 16 bytes.
pub fn fixed_16(b: &[u8]) -> (r: Option<[u8; 16]>)
    ensures
        match r {
            Some(a) => b@.len() == 16 && a@ == b@,
            None => b@.len() != 16,
        },
{
    if b.len() != 16 {
        return None;
    }
    let mut a = [0u8; 16];
    let mut i: usize = 0;
    while i < 16
        invariant
            i <= 16,
            b@.len() == 16,
            forall|k: int| 0 <= k < i ==> a@[k] == b@[k],
        decreases 16 - i,
    {
        a.set(i, b[i]);
        i = i + 1;
    }
    assert(a@ =~= b@);
    Some(a)
}

/// A 32-byte column value, if the blob has exactly 32 bytes.
pub fn fixed_32(b: &[u8]) -> (r: Option<[u8; 32]>)
    ensures
        match r {
            Some(a) => b@.len() == 32 && a@ == b@,
            None => b@.len() != 32,
        },
{
    if b.len() != 32 {
        return None;
    }
    let mut a = [0u8; 32];
    let mut i: usize = 0;
    while i < 32
        invariant
            i <= 32,
            b@.len() == 32,
            forall|k: int| 0 <= k < i ==> a@[k] == b@[k],
        decreases 32 - i,
    {
        a.set(i, b[i]);
        i = i + 1;
    }
    assert(a@ =~= b@);
    Some(a)
}


// ------------------------------------------------------------- migrations

/// Schema version shipped by this build.
pub const CURRENT_VERSION: i32 = 9;

/// The migration steps a database at schema `version` runs, in order: every
/// step above its version up to [`CURRENT_VERSION`]; none when it is
/// current. A database written by a newer build has no plan: it is refused.
pub open spec fn spec_migration_steps(version: i32) -> Option<Seq<i32>> {
    if version > CURRENT_VERSION {
        None
    } else {
        let from: int = if version < 0 {
            0
        } else {
            version as int
        };
        Some(Seq::new((CURRENT_VERSION - from) as nat, |i: int| (from + 1 + i) as i32))
    }
}

/// The migration steps to run on a database at schema `version`.
pub fn migration_steps(version: i32) -> (r: Option<Vec<i32>>)
    ensures
        match r {
            Some(s) => spec_migration_steps(version) == Some(s@),
            None => spec_migration_steps(version) is None,
        },
{
    if version > CURRENT_VERSION {
        return None;
    }
    let mut steps: Vec<i32> = Vec::new();
    let mut k: i32 = 1;
    let ghost from: int = if version < 0 {
        0
    } else {
        version as int
    };
    while k <= CURRENT_VERSION
        invariant
            1 <= k <= CURRENT_VERSION + 1,
            version <= CURRENT_VERSION,
            from == (if version < 0 { 0 } else { version as int }),
            steps@.len() == (if k - 1 > from { k - 1 - from } else { 0 }),
            forall|i: int| 0 <= i < steps@.len() ==> steps@[i] == from + 1 + i,
        decreases CURRENT_VERSION + 1 - k,
    {
        if version < k {
            steps.push(k);
        }
        k = k + 1;
    }
    assert(steps@ =~= Seq::new((CURRENT_VERSION - from) as nat, |i: int| (from + 1 + i) as i32));
    Some(steps)
}

/// Whether a failed migration batch was already applied by an earlier,
/// interrupted run: its message, lowercased, mentions a duplicate column or
/// something that already exists.
pub open spec fn spec_is_tolerated_migration_error(msg: Seq<char>) -> bool {
    spec_find(spec_lower_ascii(msg), "duplicate column name"@) >= 0 || spec_find(
        spec_lower_ascii(msg),
        "already exists"@,
    ) >= 0
}

/// Whether a migration batch that failed with `msg` may be passed over.
pub fn is_tolerated_migration_error(msg: &str) -> (b: bool)
    ensures
        b == spec_is_tolerated_migration_error(msg@),
{
    let m = lower_ascii(&chars_of(msg));
    let dup = chars_of("duplicate column name");
    let exists = chars_of("already exists");
    find_seq(&m, &dup).is_some() || find_seq(&m, &exists).is_some()
}

/// Law: migrating is idempotent. The steps of any version this build can
/// open end at [`CURRENT_VERSION`] (or there are none because it is already
/// current), and a current database has nothing left to run.
pub proof fn lemma_migrations_reach_current(version: i32)
    requires
        version <= CURRENT_VERSION,
    ensures
        spec_migration_steps(version) matches Some(s) && (s.len() == 0 || s.last() == CURRENT_VERSION),
        spec_migration_steps(CURRENT_VERSION) == Some(Seq::<i32>::empty()),
{
    assert(Seq::new(0nat, |i: int| (CURRENT_VERSION + 1 + i) as i32) =~= Seq::<i32>::empty());
}

/// Law: a failed migration batch is passed over exactly when its message,
/// in ASCII lower case, contains `duplicate column name` or
/// `already exists`; a database newer than this build has no plan, and one
/// at version `v` runs the steps `v + 1` to the current version, one each.
pub proof fn lemma_migration_rules(msg: Seq<char>, v: i32)
    ensures
        spec_is_tolerated_migration_error(msg) <==> (spec_find(spec_lower_ascii(msg), "duplicate column name"@) >= 0
            || spec_find(spec_lower_ascii(msg), "already exists"@) >= 0),
        CURRENT_VERSION == 9,
        v > 9 ==> spec_migration_steps(v) is None,
        0 <= v <= 9 ==> (spec_migration_steps(v) matches Some(st) && st.len() == 9 - v && forall|i: int| 0 <= i
            < st.len() ==> #[trigger] st[i] == v + 1 + i),
        v < 0 ==> (spec_migration_steps(v) matches Some(st) && st.len() == 9 && forall|i: int| 0 <= i < st.len()
            ==> #[trigger] st[i] == 1 + i),
{
}

} // verus!
