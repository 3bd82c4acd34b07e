//! Content-addressed encrypted store: where its blobs live, and which of
//! them a garbage collection pass moves to the trash.
//!
//! On-disk layout:
//!
//! ```text
//! <root>/cas/<AA>/<HEX_BLAKE3_OF_PLAINTEXT>
//! <root>/cas/tmp/<uuid>          # staging area for atomic writes
//! <root>/cas/trash/<ts>/<HASH>   # post-GC, retained for N days
//! ```

use crate::analytics::trips::{blake3_hash, spec_blake3_hash};
use crate::blind_text::{hex_string, spec_hex};
use crate::paths::{push_segment, spec_push};
use crate::text::{chars_eq, chars_of, string_of, push_chars};
use vstd::prelude::*;

verus! {

/// Directory of the store under its root.
pub const CAS_SUBDIR: &'static str = "cas";

/// Staging directory of the store, for atomic writes.
pub const TMP_SUBDIR: &'static str = "tmp";

/// Directory of the blobs that garbage collection set aside.
pub const TRASH_SUBDIR: &'static str = "trash";

/// The address of a blob: the lowercase hex of the BLAKE3 hash of its
/// plaintext. Equal plaintexts share one address, which is how the store
/// deduplicates.
pub fn content_address(plaintext: &[u8]) -> (h: String)
    ensures
        h@ == spec_hex(spec_blake3_hash(plaintext@)),
{
    let d = blake3_hash(plaintext);
    hex_string(&d)
}

/// `blake3::Hasher`, the incremental form of the BLAKE3 hash.
#[verifier::external_type_specification]
#[verifier::external_body]
pub struct ExHasher(blake3::Hasher);

/// The bytes fed into a hasher so far.
pub uninterp spec fn spec_hasher_input(h: blake3::Hasher) -> Seq<u8>;

/// Calls `blake3::Hasher::new`. The contract claims that nothing has been
/// fed into the new hasher.
#[verifier::external_body]
fn hasher_new() -> (h: blake3::Hasher)
    ensures
        spec_hasher_input(h) == Seq::<u8>::empty(),
{
    blake3::Hasher::new()
}

/// Calls `blake3::Hasher::update`. The contract claims that `data` is added
/// after the bytes fed so far.
#[verifier::external_body]
fn hasher_update(h: &mut blake3::Hasher, data: &[u8])
    ensures
        spec_hasher_input(*final(h)) == spec_hasher_input(*old(h)) + data@,
{
    h.update(data);
}

/// Calls `blake3::Hasher::finalize`. The contract claims what blake3
/// documents: the result is the hash of all the bytes fed so far, as
/// `blake3::hash` gives it.
#[verifier::external_body]
fn hasher_finalize(h: &blake3::Hasher) -> (d: [u8; 32])
    ensures
        d@ == spec_blake3_hash(spec_hasher_input(*h)),
{
    *h.finalize().as_bytes()
}

/// The content address of a plaintext that arrives in pieces.
pub struct ContentHasher {
    h: blake3::Hasher,
}

impl ContentHasher {
    /// The bytes fed so far.
    pub closed spec fn spec_input(&self) -> Seq<u8> {
        spec_hasher_input(self.h)
    }

    /// A hasher that has been fed nothing.
    pub fn new() -> (c: Self)
        ensures
            c.spec_input() == Seq::<u8>::empty(),
    {
        ContentHasher { h: hasher_new() }
    }

    /// Feed the next piece of the plaintext.
    pub fn update(&mut self, data: &[u8])
        ensures
            final(self).spec_input() == old(self).spec_input() + data@,
    {
        hasher_update(&mut self.h, data);
    }

    /// The BLAKE3 hash of everything fed so far.
    pub fn digest(&self) -> (d: [u8; 32])
        ensures
            d@ == spec_blake3_hash(self.spec_input()),
    {
        hasher_finalize(&self.h)
    }

    /// The content address of everything fed so far: the same as
    /// [`content_address`] of it.
    pub fn address(&self) -> (a: String)
        ensures
            a@ == spec_hex(spec_blake3_hash(self.spec_input())),
    {
        let d = hasher_finalize(&self.h);
        hex_string(&d)
    }
}

/// Content-addressed encrypted store rooted at a directory.
#[derive(Debug)]
pub struct CasStore {
    root: String,
}

/// The result of a garbage collection pass.
#[derive(Debug, Clone, PartialEq, Eq)]
pub struct GcReport {
    pub kept: usize,
    pub moved_to_trash: usize,
    pub bytes_trashed: u64,
    pub trash_manifest: Option<String>,
}

/// A blob file found in a shard directory of the store.
#[derive(Debug, Clone, PartialEq, Eq)]
pub struct BlobEntry {
    /// Name of the shard directory (two hex digits).
    pub shard: String,
    /// File name of the blob.
    pub name: String,
    /// Size of the blob in bytes.
    pub bytes: u64,
}

/// What a garbage collection pass does: the blobs it moves to the trash,
/// how many it keeps, and the manifest of the moved blobs.
#[derive(Debug, Clone, PartialEq, Eq)]
pub struct GcPlan {
    pub trash: Vec<BlobEntry>,
    pub kept: usize,
    pub bytes_trashed: u64,
    pub manifest: String,
}

impl CasStore {
    /// The directory the store is rooted at.
    pub closed spec fn spec_root(&self) -> Seq<char> {
        self.root@
    }

    /// A store rooted at `root`. The directories under it are created by
    /// whoever opens the store on disk.
    pub fn at(root: &str) -> (s: Self)
        ensures
            s.spec_root() == root@,
    {
        CasStore { root: root.to_owned() }
    }

    /// The root directory: the parent of `cas/` and of the other stores of
    /// the vault.
    pub fn root_path(&self) -> (r: &str)
        ensures
            r@ == self.spec_root(),
    {
        self.root.as_str()
    }

    /// `<root>/cas`.
    pub open spec fn spec_cas_dir(&self) -> Seq<char> {
        spec_push(self.spec_root(), CAS_SUBDIR@)
    }

    /// `<root>/cas`.
    pub fn cas_dir(&self) -> (p: String)
        ensures
            p@ == self.spec_cas_dir(),
    {
        push_segment(self.root.as_str(), CAS_SUBDIR)
    }

    /// `<root>/cas/tmp`.
    pub fn tmp_dir(&self) -> (p: String)
        ensures
            p@ == spec_push(self.spec_cas_dir(), TMP_SUBDIR@),
    {
        let c = self.cas_dir();
        push_segment(c.as_str(), TMP_SUBDIR)
    }

    /// `<root>/cas/trash`.
    pub fn trash_dir(&self) -> (p: String)
        ensures
            p@ == spec_push(self.spec_cas_dir(), TRASH_SUBDIR@),
    {
        let c = self.cas_dir();
        push_segment(c.as_str(), TRASH_SUBDIR)
    }

    /// `<root>/cas/<first two bytes of hash>/<hash>`.
    pub open spec fn spec_blob_path(&self, hash: Seq<char>) -> Seq<char> {
        spec_push(spec_push(self.spec_cas_dir(), spec_two_byte_prefix(hash)->0), hash)
    }

    /// Where the blob with plaintext hash `hash_hex` lives: under the shard
    /// named by its first two bytes, which must end on a character boundary.
    pub fn blob_path(&self, hash_hex: &str) -> (p: String)
        requires
            spec_two_byte_prefix(hash_hex@) is Some,
        ensures
            p@ == self.spec_blob_path(hash_hex@),
    {
        let h = chars_of(hash_hex);
        let aa = if (h[0] as u32) < 0x80 {
            string_of(&[h[0], h[1]])
        } else {
            string_of(&[h[0]])
        };
        assert(aa@ =~= spec_two_byte_prefix(hash_hex@)->0);
        let c = self.cas_dir();
        let shard = push_segment(c.as_str(), aa.as_str());
        push_segment(shard.as_str(), hash_hex)
    }
}

/// The number of bytes of `c` in UTF-8.
pub open spec fn spec_utf8_len(c: char) -> int {
    if (c as u32) < 0x80 {
        1
    } else if (c as u32) < 0x800 {
        2
    } else if (c as u32) < 0x10000 {
        3
    } else {
        4
    }
}

/// The first two bytes of `s` as a string, where `s` has two bytes and they
/// end on a character boundary.
pub open spec fn spec_two_byte_prefix(s: Seq<char>) -> Option<Seq<char>> {
    if s.len() >= 1 && spec_utf8_len(s[0]) == 2 {
        Some(s.subrange(0, 1))
    } else if s.len() >= 2 && spec_utf8_len(s[0]) == 1 && spec_utf8_len(s[1]) == 1 {
        Some(s.subrange(0, 2))
    } else {
        None
    }
}

/// Whether `c` is an ASCII hex digit.
pub open spec fn spec_is_hex_digit(c: char) -> bool {
    ('0' <= c && c <= '9') || ('a' <= c && c <= 'f') || ('A' <= c && c <= 'F')
}

/// Whether a directory under `cas/` is a shard directory: exactly two hex
/// digits (so neither `tmp` nor `trash`).
pub open spec fn spec_is_shard_dir_name(name: Seq<char>) -> bool {
    name.len() == 2 && spec_is_hex_digit(name[0]) && spec_is_hex_digit(name[1])
}

fn is_hex_digit(c: char) -> (b: bool)
    ensures
        b == spec_is_hex_digit(c),
{
    ('0' <= c && c <= '9') || ('a' <= c && c <= 'f') || ('A' <= c && c <= 'F')
}

/// Whether garbage collection descends into the directory `name` of `cas/`.
pub fn is_shard_dir_name(name: &str) -> (b: bool)
    ensures
        b == spec_is_shard_dir_name(name@),
{
    let v = chars_of(name);
    v.len() == 2 && is_hex_digit(v[0]) && is_hex_digit(v[1])
}

/// Whether the blob named `name` is among the live hashes.
pub open spec fn spec_is_live(name: Seq<char>, live: Seq<String>) -> bool {
    exists|i: int| 0 <= i < live.len() && #[trigger] live[i]@ == name
}

/// The blobs of `entries` that are not live, in order.
pub open spec fn spec_trashed(entries: Seq<BlobEntry>, live: Seq<String>) -> Seq<BlobEntry>
    decreases entries.len(),
{
    if entries.len() == 0 {
        seq![]
    } else {
        let rest = spec_trashed(entries.drop_last(), live);
        if spec_is_live(entries.last().name@, live) {
            rest
        } else {
            rest.push(entries.last())
        }
    }
}

/// The number of live blobs of `entries`.
pub open spec fn spec_kept(entries: Seq<BlobEntry>, live: Seq<String>) -> nat
    decreases entries.len(),
{
    if entries.len() == 0 {
        0
    } else {
        spec_kept(entries.drop_last(), live) + if spec_is_live(entries.last().name@, live) {
            1nat
        } else {
            0nat
        }
    }
}

/// The total size of `entries`.
pub open spec fn spec_total_bytes(entries: Seq<BlobEntry>) -> nat
    decreases entries.len(),
{
    if entries.len() == 0 {
        0
    } else {
        spec_total_bytes(entries.drop_last()) + (entries.last().bytes as nat)
    }
}

/// The manifest of moved blobs: one `<shard>/<name>` line each, every line
/// ended by a newline.
pub open spec fn spec_manifest(entries: Seq<BlobEntry>) -> Seq<char>
    decreases entries.len(),
{
    if entries.len() == 0 {
        seq![]
    } else {
        spec_manifest(entries.drop_last()) + entries.last().shard@ + seq!['/']
            + entries.last().name@ + seq!['\n']
    }
}

proof fn lemma_total_bytes_prefix(entries: Seq<BlobEntry>, k: int)
    requires
        0 <= k <= entries.len(),
    ensures
        spec_total_bytes(entries.subrange(0, k)) <= spec_total_bytes(entries),
    decreases entries.len(),
{
    if k < entries.len() {
        assert(entries.drop_last().subrange(0, k) =~= entries.subrange(0, k));
        lemma_total_bytes_prefix(entries.drop_last(), k);
    } else {
        assert(entries.subrange(0, k) =~= entries);
    }
}

proof fn lemma_trashed_bytes_le(entries: Seq<BlobEntry>, live: Seq<String>)
    ensures
        spec_total_bytes(spec_trashed(entries, live)) <= spec_total_bytes(entries),
        spec_kept(entries, live) <= entries.len(),
    decreases entries.len(),
{
    if entries.len() > 0 {
        lemma_trashed_bytes_le(entries.drop_last(), live);
        let rest = spec_trashed(entries.drop_last(), live);
        assert(rest.push(entries.last()).drop_last() =~= rest);
    }
}

fn is_live(name: &str, live: &[String]) -> (b: bool)
    ensures
        b == spec_is_live(name@, live@),
{
    let n = chars_of(name);
    let mut i: usize = 0;
    while i < live.len()
        invariant
            i <= live@.len(),
            n@ == name@,
            forall|j: int| 0 <= j < i ==> #[trigger] live@[j]@ != name@,
        decreases live@.len() - i,
    {
        let l = chars_of(live[i].as_str());
        if chars_eq(&l, &n) {
            return true;
        }
        i = i + 1;
    }
    false
}

/// The blobs that a garbage collection pass over `entries` moves to the
/// trash: those whose name is not among the `live` hashes, in the order
/// found, with the count of those it keeps, the bytes it moves, and the
/// manifest of the moved blobs.
pub fn gc_plan(entries: &[BlobEntry], live: &[String]) -> (p: GcPlan)
    requires
        spec_total_bytes(entries@) <= u64::MAX,
    ensures
        p.trash@ == spec_trashed(entries@, live@),
        p.kept == spec_kept(entries@, live@),
        p.bytes_trashed == spec_total_bytes(spec_trashed(entries@, live@)),
        p.manifest@ == spec_manifest(spec_trashed(entries@, live@)),
{
    let mut trash: Vec<BlobEntry> = Vec::new();
    let mut kept: usize = 0;
    let mut bytes: u64 = 0;
    let mut manifest = String::new();
    let mut i: usize = 0;
    while i < entries.len()
        invariant
            i <= entries@.len(),
            spec_total_bytes(entries@) <= u64::MAX,
            trash@ == spec_trashed(entries@.subrange(0, i as int), live@),
            kept == spec_kept(entries@.subrange(0, i as int), live@),
            kept <= i,
            bytes == spec_total_bytes(spec_trashed(entries@.subrange(0, i as int), live@)),
            bytes <= spec_total_bytes(entries@.subrange(0, i as int)),
            manifest@ == spec_manifest(spec_trashed(entries@.subrange(0, i as int), live@)),
        decreases entries@.len() - i,
    {
        let ghost pre = entries@.subrange(0, i as int);
        let ghost next = entries@.subrange(0, i + 1);
        assert(next.drop_last() =~= pre);
        assert(next.last() == entries@[i as int]);
        proof {
            lemma_total_bytes_prefix(entries@, i + 1);
            lemma_trashed_bytes_le(next, live@);
            lemma_trashed_bytes_le(pre, live@);
        }
        let e = &entries[i];
        if is_live(e.name.as_str(), live) {
            kept = kept + 1;
        } else {
            let ghost t = spec_trashed(pre, live@);
            assert(spec_trashed(next, live@) == t.push(entries@[i as int]));
            assert(t.push(entries@[i as int]).drop_last() =~= t);
            bytes = bytes + e.bytes;
            push_chars(&mut manifest, &chars_of(e.shard.as_str()));
            manifest.push('/');
            push_chars(&mut manifest, &chars_of(e.name.as_str()));
            manifest.push('\n');
            trash.push(BlobEntry { shard: e.shard.clone(), name: e.name.clone(), bytes: e.bytes });
        }
        i = i + 1;
    }
    assert(entries@.subrange(0, entries@.len() as int) =~= entries@);
    GcPlan { trash, kept, bytes_trashed: bytes, manifest }
}

impl GcPlan {
    /// The report of the pass once the plan is carried out, with the path
    /// the manifest was written to; a pass that moved nothing writes none.
    pub fn report(&self, manifest_path: String) -> (r: GcReport)
        ensures
            r.kept == self.kept,
            r.moved_to_trash == self.trash@.len(),
            r.bytes_trashed == self.bytes_trashed,
            r.trash_manifest == (if self.trash@.len() > 0 {
                Some(manifest_path)
            } else {
                None
            }),
    {
        let moved = self.trash.len();
        GcReport {
            kept: self.kept,
            moved_to_trash: moved,
            bytes_trashed: self.bytes_trashed,
            trash_manifest: if moved > 0 {
                Some(manifest_path)
            } else {
                None
            },
        }
    }
}

/// Law: garbage collection never trashes a live blob, and every blob is
/// either kept or trashed: the kept count and the trashed blobs together
/// account for all of them.
pub proof fn lemma_gc_spares_live(entries: Seq<BlobEntry>, live: Seq<String>)
    ensures
        forall|k: int|
            0 <= k < spec_trashed(entries, live).len() ==> !spec_is_live(
                (#[trigger] spec_trashed(entries, live)[k]).name@,
                live,
            ),
        spec_kept(entries, live) + spec_trashed(entries, live).len() == entries.len(),
    decreases entries.len(),
{
    if entries.len() > 0 {
        lemma_gc_spares_live(entries.drop_last(), live);
        let rest = spec_trashed(entries.drop_last(), live);
        if !spec_is_live(entries.last().name@, live) {
            assert forall|k: int| 0 <= k < rest.push(entries.last()).len() implies !spec_is_live(
                (#[trigger] rest.push(entries.last())[k]).name@,
                live,
            ) by {
                if k < rest.len() {
                    assert(rest.push(entries.last())[k] == rest[k]);
                }
            }
        }
    }
}

proof fn lemma_trashed_members(entries: Seq<BlobEntry>, live: Seq<String>)
    ensures
        forall|k: int, j: int| 0 <= k < spec_trashed(entries, live).len() && 0 <= j < live.len() ==> (#[trigger] live[j])@
            != (#[trigger] spec_trashed(entries, live)[k]).name@,
        forall|k: int| 0 <= k < spec_trashed(entries, live).len() ==> entries.contains(
            #[trigger] spec_trashed(entries, live)[k],
        ),
        forall|m: int| 0 <= m < entries.len() && (forall|j: int| 0 <= j < live.len() ==> live[j]@ != entries[m].name@)
            ==> spec_trashed(entries, live).contains(#[trigger] entries[m]),
    decreases entries.len(),
{
    if entries.len() > 0 {
        let pre = entries.drop_last();
        lemma_trashed_members(pre, live);
        let rest = spec_trashed(pre, live);
        let t = spec_trashed(entries, live);
        let x = entries.last();
        assert(entries[entries.len() - 1] == x);
        assert forall|k: int, j: int| 0 <= k < t.len() && 0 <= j < live.len() implies (#[trigger] live[j])@
            != (#[trigger] t[k]).name@ by {
            if k < rest.len() {
                assert(t[k] == rest[k]);
            } else {
                assert(t[k] == x);
                assert(!spec_is_live(x.name@, live));
            }
        }
        assert forall|k: int| 0 <= k < t.len() implies entries.contains(#[trigger] t[k]) by {
            if k < rest.len() {
                assert(t[k] == rest[k]);
                let m = choose|m: int| 0 <= m < pre.len() && pre[m] == rest[k];
                assert(entries[m] == pre[m]);
            } else {
                assert(t[k] == x);
            }
        }
        assert forall|m: int| 0 <= m < entries.len() && (forall|j: int| 0 <= j < live.len() ==> live[j]@
            != entries[m].name@) implies t.contains(#[trigger] entries[m]) by {
            if !spec_is_live(x.name@, live) {
                assert(t == rest.push(x));
            } else {
                assert(t == rest);
                let j = choose|j: int| 0 <= j < live.len() && #[trigger] live[j]@ == x.name@;
            }
            if m < pre.len() {
                assert(pre[m] == entries[m]);
                let q = choose|q: int| 0 <= q < rest.len() && rest[q] == pre[m];
                if !spec_is_live(x.name@, live) {
                    assert(t[q] == rest[q]);
                }
            } else {
                assert(entries[m] == x);
                assert(!spec_is_live(x.name@, live));
                assert(t[rest.len() as int] == x);
            }
        }
    }
}

/// Law: garbage collection never trashes a live blob. No blob in the plan's
/// trash has a name equal to any entry of `live`, wherever it stands;
/// every trashed blob is one of `entries`; every blob whose name is in no
/// entry of `live` is trashed; and every blob is either kept or trashed.
pub proof fn lemma_gc_plan_law(entries: Seq<BlobEntry>, live: Seq<String>, p: GcPlan)
    requires
        p.trash@ == spec_trashed(entries, live),
        p.kept == spec_kept(entries, live),
    ensures
        forall|k: int, j: int| 0 <= k < p.trash@.len() && 0 <= j < live.len() ==> (#[trigger] live[j])@ != (
        #[trigger] p.trash@[k]).name@,
        forall|m: int, j: int| 0 <= m < entries.len() && 0 <= j < live.len() && (#[trigger] live[j])@
            == (#[trigger] entries[m]).name@ ==> !p.trash@.contains(entries[m]),
        forall|k: int| 0 <= k < p.trash@.len() ==> entries.contains(#[trigger] p.trash@[k]),
        forall|m: int| 0 <= m < entries.len() && (forall|j: int| 0 <= j < live.len() ==> live[j]@ != entries[m].name@)
            ==> p.trash@.contains(#[trigger] entries[m]),
        p.kept + p.trash@.len() == entries.len(),
{
    lemma_trashed_members(entries, live);
    lemma_gc_spares_live(entries, live);
    assert forall|m: int, j: int| 0 <= m < entries.len() && 0 <= j < live.len() && (#[trigger] live[j])@
        == (#[trigger] entries[m]).name@ implies !p.trash@.contains(entries[m]) by {
        if p.trash@.contains(entries[m]) {
            let k = choose|k: int| 0 <= k < p.trash@.len() && p.trash@[k] == entries[m];
            assert(live[j]@ != p.trash@[k].name@);
        }
    }
}

/// Law: garbage collection descends into a directory of `cas/` exactly when
/// its name is two ASCII hex digits, of either case.
pub proof fn lemma_shard_dir_rule(name: Seq<char>)
    ensures
        spec_is_shard_dir_name(name) <==> (name.len() == 2 && forall|i: int| 0 <= i < 2 ==> ('0' <= #[trigger] name[i]
            <= '9' || 'a' <= name[i] <= 'f' || 'A' <= name[i] <= 'F')),
{
    if name.len() == 2 && spec_is_shard_dir_name(name) {
        assert forall|i: int| 0 <= i < 2 implies ('0' <= #[trigger] name[i] <= '9' || 'a' <= name[i] <= 'f' || 'A'
            <= name[i] <= 'F') by {
            if i == 0 {
            } else {
                assert(i == 1);
            }
        }
    }
    if name.len() == 2 && forall|i: int| 0 <= i < 2 ==> ('0' <= #[trigger] name[i] <= '9' || 'a' <= name[i] <= 'f'
        || 'A' <= name[i] <= 'F') {
        assert('0' <= name[0] <= '9' || 'a' <= name[0] <= 'f' || 'A' <= name[0] <= 'F');
        assert('0' <= name[1] <= '9' || 'a' <= name[1] <= 'f' || 'A' <= name[1] <= 'F');
    }
}

/// Law: the store keeps its blobs under `cas/`, stages writes in
/// `cas/tmp/` and moves garbage to `cas/trash/`.
pub proof fn lemma_store_layout(s: CasStore)
    ensures
        CAS_SUBDIR@ == "cas"@,
        TMP_SUBDIR@ == "tmp"@,
        TRASH_SUBDIR@ == "trash"@,
        s.spec_cas_dir() == spec_push(s.spec_root(), "cas"@),
{
}

/// Law: the trash manifest lists one line `<shard>/<name>` per moved blob,
/// in order: the manifest of two runs of blobs is the manifest of the first
/// followed by that of the second.
pub proof fn lemma_manifest_rule(a: Seq<BlobEntry>, b: Seq<BlobEntry>, e: BlobEntry)
    ensures
        spec_manifest(seq![e]) == e.shard@ + seq!['/'] + e.name@ + seq!['\n'],
        spec_manifest(a + b) == spec_manifest(a) + spec_manifest(b),
    decreases b.len(),
{
    assert(seq![e].drop_last() =~= Seq::<BlobEntry>::empty());
    assert(spec_manifest(Seq::<BlobEntry>::empty()) + e.shard@ + seq!['/'] + e.name@ + seq!['\n'] =~= e.shard@
        + seq!['/'] + e.name@ + seq!['\n']);
    if b.len() == 0 {
        assert(a + b =~= a);
        assert(spec_manifest(a) + spec_manifest(b) =~= spec_manifest(a));
    } else {
        lemma_manifest_rule(a, b.drop_last(), e);
        assert((a + b).drop_last() =~= a + b.drop_last());
        assert((a + b).last() == b.last());
        let l = b.last();
        assert(spec_manifest(a) + (spec_manifest(b.drop_last()) + l.shard@ + seq!['/'] + l.name@ + seq!['\n'])
            =~= spec_manifest(a) + spec_manifest(b.drop_last()) + l.shard@ + seq!['/'] + l.name@ + seq!['\n']);
    }
}

/// Law: the blob of an ASCII hash lives in the shard named by the hash's
/// first two characters.
pub proof fn lemma_ascii_shard_rule(hash: Seq<char>)
    requires
        hash.len() >= 2,
        (hash[0] as u32) < 0x80,
        (hash[1] as u32) < 0x80,
    ensures
        spec_two_byte_prefix(hash) == Some(hash.subrange(0, 2)),
        spec_utf8_len(hash[0]) == 1,
{
}

} // verus!
