//! Album export: the names the exported files get, and the tally of an
//! export run. Reading the blobs and writing the files stand outside this
//! library.

use crate::dto::ExportReport;
use crate::paths::{extension_of, file_stem_of, spec_extension, spec_file_stem};
use crate::text::{chars_of, push_chars, string_of};
use vstd::prelude::*;

verus! {

/// The decimal digits of `n`.
pub open spec fn spec_decimal(n: nat) -> Seq<char>
    decreases n,
{
    if n < 10 {
        seq![((n + 48) as u32) as char]
    } else {
        spec_decimal(n / 10) + seq![((n % 10 + 48) as u32) as char]
    }
}

/// `n` written in decimal, with a `-` before a negative number.
pub open spec fn spec_int_text(n: int) -> Seq<char> {
    if n < 0 {
        seq!['-'] + spec_decimal((-n) as nat)
    } else {
        spec_decimal(n as nat)
    }
}

/// The decimal digits of `n`.
pub(crate) fn push_decimal(s: &mut String, n: u64)
    ensures
        final(s)@ == old(s)@ + spec_decimal(n as nat),
    decreases n,
{
    if n >= 10 {
        push_decimal(s, n / 10);
    }
    let d: u8 = (n % 10) as u8;
    s.push((d + 48) as char);
    proof {
        if n >= 10 {
            assert(spec_decimal(n as nat) == spec_decimal((n / 10) as nat) + seq![((n % 10 + 48) as u32) as char]);
        }
    }
}

/// `n` written in decimal.
pub(crate) fn push_int(s: &mut String, n: i64)
    ensures
        final(s)@ == old(s)@ + spec_int_text(n as int),
{
    if n < 0 {
        s.push('-');
        let m: u64 = if n == i64::MIN {
            9223372036854775808u64
        } else {
            (-n) as u64
        };
        push_decimal(s, m);
    } else {
        push_decimal(s, n as u64);
    }
}

/// The name an asset is first exported under: its own file name, or
/// `asset_<id>.bin` when it has none.
pub open spec fn spec_first_name(filename: Option<Seq<char>>, asset_id: i64) -> Seq<char> {
    match filename {
        Some(f) => f,
        None => "asset_"@ + spec_int_text(asset_id as int) + ".bin"@,
    }
}

/// The name tried after `name` when `name` is taken, at attempt `i`:
/// `<stem>-<i>.<ext>`, with `asset` and `bin` standing in for a missing
/// stem and extension.
pub open spec fn spec_next_name(name: Seq<char>, i: nat) -> Seq<char> {
    let stem = match spec_file_stem(name) {
        Some(s) => s,
        None => "asset"@,
    };
    let ext = match spec_extension(name) {
        Some(e) => e,
        None => "bin"@,
    };
    stem + seq!['-'] + spec_decimal(i) + seq!['.'] + ext
}

/// The first of `name` and the names after it that `taken` does not hold,
/// trying at most `tries` more names, the next attempt being number `i`.
pub open spec fn spec_pick_name(name: Seq<char>, i: nat, taken: Seq<Seq<char>>, tries: nat) -> Seq<char>
    decreases tries,
{
    if tries == 0 || !taken.contains(name) {
        name
    } else {
        spec_pick_name(spec_next_name(name, i), i + 1, taken, (tries - 1) as nat)
    }
}

/// The name an exported asset is written under, given the names already
/// taken in the destination: its own file name (or `asset_<id>.bin`), and
/// while that is taken `<stem>-1.<ext>`, then `<stem>-2.<ext>` of that
/// name, and so on, trying as many names as are taken.
pub open spec fn spec_export_name(filename: Option<Seq<char>>, asset_id: i64, taken: Seq<Seq<char>>) -> Seq<char> {
    spec_pick_name(spec_first_name(filename, asset_id), 1, taken, taken.len())
}

fn is_taken(name: &str, taken: &[String]) -> (b: bool)
    ensures
        b == taken@.map_values(|t: String| t@).contains(name@),
{
    let ghost tv = taken@.map_values(|t: String| t@);
    let mut k: usize = 0;
    while k < taken.len()
        invariant
            k <= taken@.len(),
            tv == taken@.map_values(|t: String| t@),
            forall|j: int| 0 <= j < k ==> tv[j] != name@,
        decreases taken@.len() - k,
    {
        if crate::text::chars_eq(&chars_of(taken[k].as_str()), &chars_of(name)) {
            assert(tv[k as int] == name@);
            return true;
        }
        k = k + 1;
    }
    false
}

/// The name an exported asset is written under: its file name, or
/// `<stem>-<i>.<ext>` while the name is taken in the destination.
pub fn export_file_name(filename: Option<&str>, asset_id: i64, taken: &[String]) -> (n: String)
    requires
        taken@.len() < u64::MAX,
    ensures
        n@ == spec_export_name(
            match filename {
                Some(f) => Some(f@),
                None => None,
            },
            asset_id,
            taken@.map_values(|t: String| t@),
        ),
{
    let ghost tv = taken@.map_values(|t: String| t@);
    let mut name = match filename {
        Some(f) => {
            let mut s = String::new();
            s.push_str(f);
            s
        },
        None => {
            let mut s = String::new();
            s.push_str("asset_");
            push_int(&mut s, asset_id);
            s.push_str(".bin");
            s
        },
    };
    let mut i: u64 = 1;
    let mut tries: u64 = taken.len() as u64;
    while tries > 0 && is_taken(name.as_str(), taken)
        invariant
            tv == taken@.map_values(|t: String| t@),
            taken@.len() < u64::MAX,
            i + tries == taken@.len() + 1,
            spec_pick_name(name@, i as nat, tv, tries as nat) == spec_export_name(
                match filename {
                    Some(f) => Some(f@),
                    None => None,
                },
                asset_id,
                tv,
            ),
        decreases tries,
    {
        let ghost old_name = name@;
        let stem = match file_stem_of(name.as_str()) {
            Some(s) => s,
            None => chars_of("asset"),
        };
        let ext = match extension_of(name.as_str()) {
            Some(e) => e,
            None => chars_of("bin"),
        };
        let mut next = String::new();
        push_chars(&mut next, &stem);
        next.push('-');
        push_decimal(&mut next, i);
        next.push('.');
        push_chars(&mut next, &ext);
        assert(next@ =~= spec_next_name(old_name, i as nat));
        name = next;
        i = i + 1;
        tries = tries - 1;
    }
    name
}

/// What happened to one asset of an export.
#[derive(Debug, Clone, Copy, PartialEq, Eq)]
pub enum ExportOutcome {
    /// The asset could not be read or decrypted.
    Skipped,
    /// The file was written, with `bytes` bytes, and `xmp` tells whether its
    /// sidecar was written too.
    Written { bytes: u64, xmp: bool },
}

impl ExportReport {
    /// Count one asset of the export.
    pub fn record(&mut self, o: ExportOutcome)
        requires
            old(self).skipped < u64::MAX,
            old(self).files_written < u64::MAX,
            old(self).xmp_written < u64::MAX,
            o matches ExportOutcome::Written { bytes, .. } ==> old(self).bytes_written + bytes <= u64::MAX,
        ensures
            match o {
                ExportOutcome::Skipped => *final(self) == (ExportReport {
                    skipped: (old(self).skipped + 1) as u64,
                    ..*old(self)
                }),
                ExportOutcome::Written { bytes, xmp } => *final(self) == (ExportReport {
                    files_written: (old(self).files_written + 1) as u64,
                    bytes_written: (old(self).bytes_written + bytes) as u64,
                    xmp_written: (if xmp {
                        old(self).xmp_written + 1
                    } else {
                        old(self).xmp_written as int
                    }) as u64,
                    skipped: old(self).skipped,
                }),
            },
    {
        match o {
            ExportOutcome::Skipped => {
                self.skipped = self.skipped + 1;
            },
            ExportOutcome::Written { bytes, xmp } => {
                self.files_written = self.files_written + 1;
                self.bytes_written = self.bytes_written + bytes;
                if xmp {
                    self.xmp_written = self.xmp_written + 1;
                }
            },
        }
    }
}

/// The tallies of an export's outcomes: files written, bytes written,
/// sidecars written, assets skipped.
pub open spec fn spec_tally(os: Seq<ExportOutcome>) -> (int, int, int, int)
    decreases os.len(),
{
    if os.len() == 0 {
        (0, 0, 0, 0)
    } else {
        let (f, b, x, k) = spec_tally(os.drop_last());
        match os.last() {
            ExportOutcome::Skipped => (f, b, x, k + 1),
            ExportOutcome::Written { bytes, xmp } => (f + 1, b + bytes, if xmp {
                x + 1
            } else {
                x
            }, k),
        }
    }
}

proof fn lemma_tally_bounds(os: Seq<ExportOutcome>)
    ensures
        spec_tally(os).0 + spec_tally(os).3 == os.len(),
        0 <= spec_tally(os).2 <= spec_tally(os).0,
        0 <= spec_tally(os).1,
        0 <= spec_tally(os).3,
    decreases os.len(),
{
    if os.len() > 0 {
        lemma_tally_bounds(os.drop_last());
    }
}

/// The report of an export whose assets had the outcomes `outcomes`, in
/// order. Every asset is counted once: written or skipped.
pub fn tally(outcomes: &[ExportOutcome]) -> (r: ExportReport)
    requires
        spec_tally(outcomes@).1 <= u64::MAX,
        outcomes@.len() <= u64::MAX,
    ensures
        r.files_written == spec_tally(outcomes@).0,
        r.bytes_written == spec_tally(outcomes@).1,
        r.xmp_written == spec_tally(outcomes@).2,
        r.skipped == spec_tally(outcomes@).3,
        r.files_written + r.skipped == outcomes@.len(),
        r.xmp_written <= r.files_written,
{
    let mut r = ExportReport { files_written: 0, bytes_written: 0, xmp_written: 0, skipped: 0 };
    let mut i: usize = 0;
    proof { lemma_tally_bounds(outcomes@); }
    while i < outcomes.len()
        invariant
            i <= outcomes@.len(),
            outcomes@.len() <= u64::MAX,
            spec_tally(outcomes@).1 <= u64::MAX,
            r.files_written == spec_tally(outcomes@.subrange(0, i as int)).0,
            r.bytes_written == spec_tally(outcomes@.subrange(0, i as int)).1,
            r.xmp_written == spec_tally(outcomes@.subrange(0, i as int)).2,
            r.skipped == spec_tally(outcomes@.subrange(0, i as int)).3,
        decreases outcomes@.len() - i,
    {
        let ghost next = outcomes@.subrange(0, i + 1);
        assert(next.drop_last() =~= outcomes@.subrange(0, i as int));
        proof {
            lemma_tally_bounds(outcomes@.subrange(0, i as int));
            lemma_tally_bounds(next);
            lemma_tally_prefix(outcomes@, i + 1);
            assert(next.last() == outcomes@[i as int]);
        }
        r.record(outcomes[i]);
        i = i + 1;
    }
    assert(outcomes@.subrange(0, outcomes@.len() as int) =~= outcomes@);
    proof { lemma_tally_bounds(outcomes@); }
    r
}

proof fn lemma_tally_prefix(os: Seq<ExportOutcome>, n: int)
    requires
        0 <= n <= os.len(),
    ensures
        spec_tally(os.subrange(0, n)).1 <= spec_tally(os).1,
    decreases os.len() - n,
{
    if n < os.len() {
        lemma_tally_prefix(os, n + 1);
        let p = os.subrange(0, n + 1);
        assert(p.drop_last() =~= os.subrange(0, n));
    } else {
        assert(os.subrange(0, n) =~= os);
    }
}

/// Law: the name an exported asset gets. It is its own file name (or
/// `asset_<id>.bin` when it has none) unless that is taken; a taken name is
/// followed by `<stem>-1.<ext>`, then the stem of that with `-2`, and so on,
/// where a missing stem reads `asset` and a missing extension `bin`.
pub proof fn lemma_export_name_rule(filename: Option<Seq<char>>, asset_id: i64, taken: Seq<Seq<char>>, name: Seq<char>, i: nat, tries: nat)
    ensures
        spec_first_name(filename, asset_id) == match filename {
            Some(f) => f,
            None => "asset_"@ + spec_int_text(asset_id as int) + ".bin"@,
        },
        !taken.contains(spec_first_name(filename, asset_id)) ==> spec_export_name(filename, asset_id, taken)
            == spec_first_name(filename, asset_id),
        spec_next_name(name, i) == match spec_file_stem(name) {
            Some(s) => s,
            None => "asset"@,
        } + "-"@ + spec_decimal(i) + "."@ + match spec_extension(name) {
            Some(e) => e,
            None => "bin"@,
        },
        tries > 0 && taken.contains(name) ==> spec_pick_name(name, i, taken, tries) == spec_pick_name(
            spec_next_name(name, i),
            i + 1,
            taken,
            (tries - 1) as nat,
        ),
        spec_int_text(asset_id as int) == if asset_id < 0 {
            "-"@ + spec_decimal((-asset_id) as nat)
        } else {
            spec_decimal(asset_id as nat)
        },
{
    reveal_strlit("-");
    reveal_strlit(".");
    assert(seq!['-'] =~= "-"@);
    assert(seq!['.'] =~= "."@);
}

} // verus!
