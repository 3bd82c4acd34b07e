//! Wire-format constants and parsing for vault blobs.
//!
//! Every blob starts with the four magic bytes `MVV1`, followed by the
//! 24-byte secretstream header, followed by the encrypted chunks.

use crate::error::Error;
use vstd::prelude::*;

verus! {

/// Magic bytes at the start of every vault blob.
pub const MAGIC: [u8; 4] = [0x4d, 0x56, 0x56, 0x31];

/// Length of [`MAGIC`].
pub const MAGIC_LEN: usize = 4;

/// Length of the secretstream header written right after the magic.
pub const SECRETSTREAM_HEADER_LEN: usize = 24;

/// The magic bytes `M`, `V`, `V`, `1` as a sequence.
pub open spec fn spec_magic() -> Seq<u8> {
    seq![0x4du8, 0x56u8, 0x56u8, 0x31u8]
}

/// The prelude of a blob whose secretstream header is `header`.
pub open spec fn spec_prelude(header: Seq<u8>) -> Seq<u8> {
    spec_magic() + header
}

/// Whether `buf` starts with a well-formed prelude: long enough, and
/// starting with the magic.
pub open spec fn spec_has_prelude(buf: Seq<u8>) -> bool {
    &&& buf.len() >= MAGIC_LEN + SECRETSTREAM_HEADER_LEN
    &&& buf.subrange(0, MAGIC_LEN as int) == spec_magic()
}

/// Parse the blob prelude (magic and secretstream header) from `buf`.
///
/// Returns the header, or [`Error::BlobFormat`] when `buf` is too short or
/// does not start with the magic.
pub fn parse_blob_prelude(buf: &[u8]) -> (res: Result<[u8; SECRETSTREAM_HEADER_LEN], Error>)
    ensures
        spec_has_prelude(buf@) <==> res is Ok,
        res matches Ok(h) ==> h@ == buf@.subrange(
            MAGIC_LEN as int,
            (MAGIC_LEN + SECRETSTREAM_HEADER_LEN) as int,
        ),
        res matches Err(e) ==> e == Error::BlobFormat,
{
    if buf.len() < MAGIC_LEN + SECRETSTREAM_HEADER_LEN {
        return Err(Error::BlobFormat);
    }
    let mut i: usize = 0;
    while i < MAGIC_LEN
        invariant
            i <= MAGIC_LEN,
            buf@.len() >= MAGIC_LEN + SECRETSTREAM_HEADER_LEN,
            forall|k: int| 0 <= k < i ==> buf@[k] == spec_magic()[k],
        decreases MAGIC_LEN - i,
    {
        if buf[i] != MAGIC[i] {
            assert(buf@.subrange(0, MAGIC_LEN as int)[i as int] != spec_magic()[i as int]);
            return Err(Error::BlobFormat);
        }
        i = i + 1;
    }
    assert(buf@.subrange(0, MAGIC_LEN as int) =~= spec_magic());
    let mut header = [0u8; SECRETSTREAM_HEADER_LEN];
    let mut j: usize = 0;
    while j < SECRETSTREAM_HEADER_LEN
        invariant
            j <= SECRETSTREAM_HEADER_LEN,
            buf@.len() >= MAGIC_LEN + SECRETSTREAM_HEADER_LEN,
            header@.len() == SECRETSTREAM_HEADER_LEN,
            forall|k: int| 0 <= k < j ==> header@[k] == buf@[MAGIC_LEN + k],
        decreases SECRETSTREAM_HEADER_LEN - j,
    {
        header[j] = buf[MAGIC_LEN + j];
        j = j + 1;
    }
    assert(header@ =~= buf@.subrange(
        MAGIC_LEN as int,
        (MAGIC_LEN + SECRETSTREAM_HEADER_LEN) as int,
    ));
    Ok(header)
}

/// Serialise `magic || header` into a contiguous buffer for writing.
pub fn serialise_blob_prelude(header: &[u8; SECRETSTREAM_HEADER_LEN]) -> (out: Vec<u8>)
    ensures
        out@ == spec_prelude(header@),
{
    let mut out: Vec<u8> = Vec::with_capacity(MAGIC_LEN + SECRETSTREAM_HEADER_LEN);
    let mut i: usize = 0;
    while i < MAGIC_LEN
        invariant
            i <= MAGIC_LEN,
            out@ =~= spec_magic().subrange(0, i as int),
        decreases MAGIC_LEN - i,
    {
        out.push(MAGIC[i]);
        i = i + 1;
    }
    let mut j: usize = 0;
    while j < SECRETSTREAM_HEADER_LEN
        invariant
            j <= SECRETSTREAM_HEADER_LEN,
            header@.len() == SECRETSTREAM_HEADER_LEN,
            out@ =~= spec_magic() + header@.subrange(0, j as int),
        decreases SECRETSTREAM_HEADER_LEN - j,
    {
        out.push(header[j]);
        j = j + 1;
    }
    out
}

/// Law: a serialised prelude parses back to the header that was written.
pub proof fn lemma_prelude_round_trip(header: Seq<u8>)
    requires
        header.len() == SECRETSTREAM_HEADER_LEN,
    ensures
        spec_has_prelude(spec_prelude(header)),
        spec_prelude(header).subrange(
            MAGIC_LEN as int,
            (MAGIC_LEN + SECRETSTREAM_HEADER_LEN) as int,
        ) == header,
{
    assert(spec_prelude(header).subrange(0, MAGIC_LEN as int) =~= spec_magic());
    assert(spec_prelude(header).subrange(
        MAGIC_LEN as int,
        (MAGIC_LEN + SECRETSTREAM_HEADER_LEN) as int,
    ) =~= header);
}

/// Law: a blob starts with the magic `MVV1` followed by the 24-byte
/// secretstream header: exactly the buffers of at least 28 bytes whose
/// first four are `M`, `V`, `V`, `1` have a prelude.
pub proof fn lemma_prelude_rule(buf: Seq<u8>)
    ensures
        spec_has_prelude(buf) <==> (buf.len() >= 28 && buf[0] == 0x4d && buf[1] == 0x56 && buf[2] == 0x56 && buf[3]
            == 0x31),
        MAGIC@ == seq![0x4du8, 0x56u8, 0x56u8, 0x31u8],
{
    assert(MAGIC@ =~= seq![0x4du8, 0x56u8, 0x56u8, 0x31u8]);
    if buf.len() >= 28 && buf[0] == 0x4d && buf[1] == 0x56 && buf[2] == 0x56 && buf[3] == 0x31 {
        assert(buf.subrange(0, 4) =~= spec_magic());
    }
    if spec_has_prelude(buf) {
        assert(buf.subrange(0, 4)[0] == buf[0]);
        assert(buf.subrange(0, 4)[1] == buf[1]);
        assert(buf.subrange(0, 4)[2] == buf[2]);
        assert(buf.subrange(0, 4)[3] == buf[3]);
    }
}

} // verus!
