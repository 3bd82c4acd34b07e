//! The tally of an ingest run: what became of each candidate file.

use crate::text::{chars_of, starts_with_lit};
use vstd::prelude::*;

verus! {

/// What became of one candidate file of an ingest run.
#[derive(Debug, Clone, PartialEq, Eq)]
pub enum FileOutcome {
    /// A new asset was stored.
    Inserted { asset_id: i64, bytes: u64 },
    /// The content was already in the vault; only its location was recorded.
    Existing { asset_id: i64 },
    /// The file was passed over, for the reason given.
    Skipped(String),
    /// Storing the file failed, with this message.
    Failed(String),
}

/// The counts of an ingest run.
#[derive(Debug, Clone, Copy, Default, PartialEq, Eq)]
pub struct IngestReport {
    pub inserted: u64,
    pub deduped: u64,
    pub skipped: u64,
    pub errors: u64,
}

impl IngestReport {
    /// The report of a run that has seen no file yet.
    pub fn empty() -> (r: Self)
        ensures
            r == (IngestReport { inserted: 0, deduped: 0, skipped: 0, errors: 0 }),
    {
        IngestReport { inserted: 0, deduped: 0, skipped: 0, errors: 0 }
    }

    /// Count one file: an insert, a dedupe, a skip or an error.
    pub fn record(&mut self, outcome: &FileOutcome)
        requires
            old(self).inserted < u64::MAX,
            old(self).deduped < u64::MAX,
            old(self).skipped < u64::MAX,
            old(self).errors < u64::MAX,
        ensures
            final(self).inserted == old(self).inserted + (if outcome is Inserted { 1int } else { 0int }),
            final(self).deduped == old(self).deduped + (if outcome is Existing { 1int } else { 0int }),
            final(self).skipped == old(self).skipped + (if outcome is Skipped { 1int } else { 0int }),
            final(self).errors == old(self).errors + (if outcome is Failed { 1int } else { 0int }),
    {
        match outcome {
            FileOutcome::Inserted { .. } => self.inserted = self.inserted + 1,
            FileOutcome::Existing { .. } => self.deduped = self.deduped + 1,
            FileOutcome::Skipped(_) => self.skipped = self.skipped + 1,
            FileOutcome::Failed(_) => self.errors = self.errors + 1,
        }
    }
}

/// Whether an asset of this MIME type is a video.
pub fn is_video_mime(mime: &str) -> (b: bool)
    ensures
        b == "video/"@.is_prefix_of(mime@),
{
    let m = chars_of(mime);
    starts_with_lit(&m, "video/")
}

/// The number of outcomes of each kind in `outcomes`.
pub open spec fn spec_count(outcomes: Seq<FileOutcome>, kind: int) -> nat
    decreases outcomes.len(),
{
    if outcomes.len() == 0 {
        0
    } else {
        let last = outcomes.last();
        let hit = match last {
            FileOutcome::Inserted { .. } => kind == 0,
            FileOutcome::Existing { .. } => kind == 1,
            FileOutcome::Skipped(_) => kind == 2,
            FileOutcome::Failed(_) => kind == 3,
        };
        spec_count(outcomes.drop_last(), kind) + if hit { 1nat } else { 0nat }
    }
}

/// The report of a run whose files came out as `outcomes`, in order: each
/// file counts once, under its own kind.
pub fn tally(outcomes: &[FileOutcome]) -> (r: IngestReport)
    ensures
        r.inserted == spec_count(outcomes@, 0),
        r.deduped == spec_count(outcomes@, 1),
        r.skipped == spec_count(outcomes@, 2),
        r.errors == spec_count(outcomes@, 3),
        r.inserted + r.deduped + r.skipped + r.errors == outcomes@.len(),
{
    let mut r = IngestReport::empty();
    let mut i: usize = 0;
    while i < outcomes.len()
        invariant
            i <= outcomes@.len(),
            r.inserted == spec_count(outcomes@.subrange(0, i as int), 0),
            r.deduped == spec_count(outcomes@.subrange(0, i as int), 1),
            r.skipped == spec_count(outcomes@.subrange(0, i as int), 2),
            r.errors == spec_count(outcomes@.subrange(0, i as int), 3),
            r.inserted + r.deduped + r.skipped + r.errors == i,
        decreases outcomes@.len() - i,
    {
        let ghost pre = outcomes@.subrange(0, i as int);
        assert(outcomes@.subrange(0, i + 1).drop_last() =~= pre);
        r.record(&outcomes[i]);
        i = i + 1;
    }
    assert(outcomes@.subrange(0, outcomes@.len() as int) =~= outcomes@);
    r
}

/// Law: each outcome counts once, under its own kind. One more insert adds
/// one to the inserts and nothing to the others; likewise a dedupe (an
/// existing asset), a skip and an error.
pub proof fn lemma_count_kinds(os: Seq<FileOutcome>, o: FileOutcome)
    ensures
        spec_count(os.push(o), 0) == spec_count(os, 0) + if o is Inserted { 1int } else { 0int },
        spec_count(os.push(o), 1) == spec_count(os, 1) + if o is Existing { 1int } else { 0int },
        spec_count(os.push(o), 2) == spec_count(os, 2) + if o is Skipped { 1int } else { 0int },
        spec_count(os.push(o), 3) == spec_count(os, 3) + if o is Failed { 1int } else { 0int },
        spec_count(seq![], 0) == 0 && spec_count(seq![], 1) == 0 && spec_count(seq![], 2) == 0
            && spec_count(seq![], 3) == 0,
{
    assert(os.push(o).drop_last() =~= os);
}

} // verus!
