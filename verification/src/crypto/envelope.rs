//! Key material and the byte layouts of the crypto envelope.
//!
//! The primitives (Argon2id, XSalsa20-Poly1305 secretbox, XChaCha20-Poly1305
//! row AEAD and secretstream, X25519 sealed boxes) are libsodium's. This
//! module fixes what the library itself decides: the sizes, the framing of
//! wrapped keys and sealed rows as `nonce || ciphertext`, the checks made
//! before and after a primitive runs, and the chunking of the streaming blob
//! cipher.

use crate::error::Error;
use vstd::prelude::*;

verus! {

// --------- FROZEN CONSTANTS ---------------------------------------------------

/// Argon2id operations limit (libsodium `crypto_pwhash_OPSLIMIT_SENSITIVE`).
pub const ARGON2_OPSLIMIT: u64 = 4;

/// Argon2id memory limit (libsodium `crypto_pwhash_MEMLIMIT_SENSITIVE`, 1 GiB).
pub const ARGON2_MEMLIMIT: usize = 1073741824;

/// Algorithm identifier of Argon2id v1.3 in libsodium.
pub const ARGON2_ALG: i32 = 2;

/// Argon2id salt length in bytes.
pub const SALT_LEN: usize = 16;

/// Nonce length of the row AEAD (XChaCha20-Poly1305-IETF).
pub const ROW_NONCE_LEN: usize = 24;

/// Tag length appended to row AEAD ciphertexts.
pub const ROW_TAG_LEN: usize = 16;

/// Key length of the key-wrapping secretbox.
pub const SECRETBOX_KEY_LEN: usize = 32;

/// Nonce length of the key-wrapping secretbox.
pub const SECRETBOX_NONCE_LEN: usize = 24;

/// Tag length of the key-wrapping secretbox.
pub const SECRETBOX_TAG_LEN: usize = 16;

/// Plaintext chunk size of the streaming blob cipher: exactly 4 MiB.
pub const PLAINTEXT_CHUNK_SIZE: usize = 4194304;

/// Per-chunk overhead of the secretstream cipher.
pub const SECRETSTREAM_ABYTES: usize = 17;

/// X25519 public-key length.
pub const PEER_PK_LEN: usize = 32;

/// X25519 secret-key length.
pub const PEER_SK_LEN: usize = 32;

/// Overhead of a sealed box.
pub const PEER_SEAL_OVERHEAD: usize = 48;

// --------- KEY NEWTYPES -------------------------------------------------------

/// Root symmetric key of a user. Wraps collection keys.
pub struct MasterKey([u8; 32]);

/// Per-collection symmetric key. Wraps the file keys of its assets.
pub struct CollectionKey([u8; 32]);

/// Per-file symmetric key of the streaming blob cipher.
pub struct FileKey([u8; 32]);

/// Key of the blind full-text index.
pub struct SearchKey([u8; 32]);

/// Password-derived key-encryption key. Wraps the master key.
pub struct KeyEncryptionKey([u8; 32]);

impl View for MasterKey {
    type V = Seq<u8>;

    closed spec fn view(&self) -> Seq<u8> {
        self.0@
    }
}

impl MasterKey {
    pub fn from_bytes(bytes: [u8; 32]) -> (k: Self)
        ensures
            k@ == bytes@,
    {
        MasterKey(bytes)
    }

    pub fn as_bytes(&self) -> (b: &[u8; 32])
        ensures
            b@ == self@,
    {
        &self.0
    }
}

impl View for CollectionKey {
    type V = Seq<u8>;

    closed spec fn view(&self) -> Seq<u8> {
        self.0@
    }
}

impl CollectionKey {
    pub fn from_bytes(bytes: [u8; 32]) -> (k: Self)
        ensures
            k@ == bytes@,
    {
        CollectionKey(bytes)
    }

    pub fn as_bytes(&self) -> (b: &[u8; 32])
        ensures
            b@ == self@,
    {
        &self.0
    }
}

impl View for FileKey {
    type V = Seq<u8>;

    closed spec fn view(&self) -> Seq<u8> {
        self.0@
    }
}

impl FileKey {
    pub fn from_bytes(bytes: [u8; 32]) -> (k: Self)
        ensures
            k@ == bytes@,
    {
        FileKey(bytes)
    }

    pub fn as_bytes(&self) -> (b: &[u8; 32])
        ensures
            b@ == self@,
    {
        &self.0
    }
}

impl View for SearchKey {
    type V = Seq<u8>;

    closed spec fn view(&self) -> Seq<u8> {
        self.0@
    }
}

impl SearchKey {
    pub fn from_bytes(bytes: [u8; 32]) -> (k: Self)
        ensures
            k@ == bytes@,
    {
        SearchKey(bytes)
    }

    pub fn as_bytes(&self) -> (b: &[u8; 32])
        ensures
            b@ == self@,
    {
        &self.0
    }
}

impl View for KeyEncryptionKey {
    type V = Seq<u8>;

    closed spec fn view(&self) -> Seq<u8> {
        self.0@
    }
}

impl KeyEncryptionKey {
    pub fn from_bytes(bytes: [u8; 32]) -> (k: Self)
        ensures
            k@ == bytes@,
    {
        KeyEncryptionKey(bytes)
    }

    pub fn as_bytes(&self) -> (b: &[u8; 32])
        ensures
            b@ == self@,
    {
        &self.0
    }
}

// --------- PEER IDENTITY ------------------------------------------------------

/// X25519 public key used for sealed-box sharing.
#[derive(Clone, Copy, PartialEq, Eq)]
pub struct PeerPublicKey(pub [u8; 32]);

/// A keypair: a public key and its secret.
pub struct PeerKeypair {
    pub public: PeerPublicKey,
    secret: [u8; 32],
}

impl PeerKeypair {
    /// The secret half, as the specification sees it.
    pub closed spec fn spec_secret(&self) -> [u8; 32] {
        self.secret
    }

    /// The public half, as the specification sees it.
    pub closed spec fn spec_public(&self) -> [u8; 32] {
        self.public.0
    }

    /// Reconstruct from raw key material (e.g. after unwrapping).
    pub fn from_bytes(public: [u8; 32], secret: [u8; 32]) -> (kp: Self)
        ensures
            kp.spec_public() == public,
            kp.spec_secret() == secret,
    {
        PeerKeypair { public: PeerPublicKey(public), secret }
    }

    /// The secret half.
    pub fn secret_bytes(&self) -> (s: &[u8; 32])
        ensures
            *s == self.spec_secret(),
    {
        &self.secret
    }

    /// Reconstruct an Ed25519-shaped keypair from its stored seed, given the
    /// public key that the seed derives (`crypto_sign_seed_keypair`) and the
    /// public key stored beside it. The stored key must match the derived
    /// one, which catches a corrupt record ([`Error::KeyOrData`]); the seed
    /// is kept as the secret half.
    pub fn from_iroh_seed_and_public(seed: [u8; 32], derived_public: [u8; 32], public: [u8; 32]) -> (r: Result<PeerKeypair, Error>)
        ensures
            match r {
                Ok(kp) => derived_public == public && kp.spec_public() == public
                    && kp.spec_secret() == seed,
                Err(e) => derived_public != public && e == Error::KeyOrData,
            },
    {
        PeerKeypair::from_bytes(derived_public, seed).check_public(public)
    }

    /// Accept a keypair derived from a stored seed only when its public half
    /// matches the stored public key; a mismatch means the record is corrupt
    /// and is reported as [`Error::KeyOrData`].
    pub fn check_public(self, public: [u8; 32]) -> (r: Result<PeerKeypair, Error>)
        ensures
            match r {
                Ok(kp) => self.spec_public() == public && kp.spec_public() == self.spec_public()
                    && kp.spec_secret() == self.spec_secret(),
                Err(e) => self.spec_public() != public && e == Error::KeyOrData,
            },
    {
        let mut i: usize = 0;
        while i < 32
            invariant
                i <= 32,
                forall|k: int| 0 <= k < i ==> self.public.0@[k] == public@[k],
            decreases 32 - i,
        {
            if self.public.0[i] != public[i] {
                assert(self.public.0@[i as int] != public@[i as int]);
                return Err(Error::KeyOrData);
            }
            i = i + 1;
        }
        assert(self.public.0@ =~= public@);
        assert(self.public.0 == public);
        Ok(self)
    }
}

} // verus!

verus! {

// --------- KEY WRAPPING LAYOUT ------------------------------------------------
//
// A wrapped key is `nonce || ciphertext`, the ciphertext being the plaintext
// followed by a 16-byte tag.

/// `nonce || ciphertext`: the serialised form of a secretbox or a sealed row.
pub fn frame_sealed(nonce: &[u8], ct: &[u8]) -> (out: Vec<u8>)
    ensures
        out@ == nonce@ + ct@,
{
    let mut out: Vec<u8> = Vec::with_capacity(nonce.len());
    let mut i: usize = 0;
    while i < nonce.len()
        invariant
            i <= nonce@.len(),
            out@ == nonce@.subrange(0, i as int),
        decreases nonce@.len() - i,
    {
        out.push(nonce[i]);
        i = i + 1;
        assert(out@ =~= nonce@.subrange(0, i as int));
    }
    let mut j: usize = 0;
    while j < ct.len()
        invariant
            j <= ct@.len(),
            out@ == nonce@ + ct@.subrange(0, j as int),
        decreases ct@.len() - j,
    {
        out.push(ct[j]);
        j = j + 1;
        assert(out@ =~= nonce@ + ct@.subrange(0, j as int));
    }
    assert(nonce@.subrange(0, nonce@.len() as int) =~= nonce@);
    assert(ct@.subrange(0, ct@.len() as int) =~= ct@);
    out
}

/// A copy of `v[from..to]`.
fn copy_range(v: &[u8], from: usize, to: usize) -> (out: Vec<u8>)
    requires
        from <= to <= v@.len(),
    ensures
        out@ == v@.subrange(from as int, to as int),
{
    let mut out: Vec<u8> = Vec::new();
    let mut i: usize = from;
    while i < to
        invariant
            from <= i <= to,
            to <= v@.len(),
            out@ =~= v@.subrange(from as int, i as int),
        decreases to - i,
    {
        out.push(v[i]);
        i = i + 1;
    }
    out
}

/// Split a sealed value into its nonce and its ciphertext. Input shorter
/// than a nonce and a tag cannot authenticate and is rejected as
/// [`Error::KeyOrData`].
pub fn split_sealed(sealed: &[u8], nonce_len: usize, tag_len: usize) -> (r: Result<
    (Vec<u8>, Vec<u8>),
    Error,
>)
    requires
        nonce_len + tag_len <= usize::MAX,
    ensures
        match r {
            Ok((n, c)) => sealed@.len() >= nonce_len + tag_len && n@ == sealed@.subrange(
                0,
                nonce_len as int,
            ) && c@ == sealed@.subrange(nonce_len as int, sealed@.len() as int),
            Err(e) => sealed@.len() < nonce_len + tag_len && e == Error::KeyOrData,
        },
{
    if sealed.len() < nonce_len + tag_len {
        return Err(Error::KeyOrData);
    }
    let n = copy_range(sealed, 0, nonce_len);
    let c = copy_range(sealed, nonce_len, sealed.len());
    Ok((n, c))
}

/// Split a wrapped key (`secretbox` form) into nonce and ciphertext.
pub fn split_wrapped(wrapped: &[u8]) -> (r: Result<(Vec<u8>, Vec<u8>), Error>)
    ensures
        match r {
            Ok((n, c)) => wrapped@.len() >= SECRETBOX_NONCE_LEN + SECRETBOX_TAG_LEN && n@
                == wrapped@.subrange(0, SECRETBOX_NONCE_LEN as int) && c@ == wrapped@.subrange(
                SECRETBOX_NONCE_LEN as int,
                wrapped@.len() as int,
            ),
            Err(e) => wrapped@.len() < SECRETBOX_NONCE_LEN + SECRETBOX_TAG_LEN && e
                == Error::KeyOrData,
        },
{
    split_sealed(wrapped, SECRETBOX_NONCE_LEN, SECRETBOX_TAG_LEN)
}

/// Split a sealed row into nonce and ciphertext.
pub fn split_row(sealed: &[u8]) -> (r: Result<(Vec<u8>, Vec<u8>), Error>)
    ensures
        match r {
            Ok((n, c)) => sealed@.len() >= ROW_NONCE_LEN + ROW_TAG_LEN && n@ == sealed@.subrange(
                0,
                ROW_NONCE_LEN as int,
            ) && c@ == sealed@.subrange(ROW_NONCE_LEN as int, sealed@.len() as int),
            Err(e) => sealed@.len() < ROW_NONCE_LEN + ROW_TAG_LEN && e == Error::KeyOrData,
        },
{
    split_sealed(sealed, ROW_NONCE_LEN, ROW_TAG_LEN)
}

/// A 32-byte key out of opened plaintext. Anything but 32 bytes means the
/// wrapped value was not a key of ours, reported as [`Error::KeyOrData`].
pub fn key_from_plain(plain: &[u8]) -> (r: Result<[u8; 32], Error>)
    ensures
        match r {
            Ok(k) => plain@.len() == 32 && k@ == plain@,
            Err(e) => plain@.len() != 32 && e == Error::KeyOrData,
        },
{
    if plain.len() != 32 {
        return Err(Error::KeyOrData);
    }
    let mut k = [0u8; 32];
    let mut i: usize = 0;
    while i < 32
        invariant
            i <= 32,
            plain@.len() == 32,
            k@.len() == 32,
            forall|q: int| 0 <= q < i ==> k@[q] == plain@[q],
        decreases 32 - i,
    {
        k[i] = plain[i];
        i = i + 1;
    }
    assert(k@ =~= plain@);
    Ok(k)
}

/// The open of a wrapped master key, given the plaintext the secretbox
/// opened to.
pub fn master_key_from_plain(plain: &[u8]) -> (r: Result<MasterKey, Error>)
    ensures
        match r {
            Ok(k) => plain@.len() == 32 && k@ == plain@,
            Err(e) => plain@.len() != 32 && e == Error::KeyOrData,
        },
{
    match key_from_plain(plain) {
        Ok(k) => Ok(MasterKey::from_bytes(k)),
        Err(e) => Err(e),
    }
}

/// The open of a wrapped collection key, given the opened plaintext.
pub fn collection_key_from_plain(plain: &[u8]) -> (r: Result<CollectionKey, Error>)
    ensures
        match r {
            Ok(k) => plain@.len() == 32 && k@ == plain@,
            Err(e) => plain@.len() != 32 && e == Error::KeyOrData,
        },
{
    match key_from_plain(plain) {
        Ok(k) => Ok(CollectionKey::from_bytes(k)),
        Err(e) => Err(e),
    }
}

/// The open of a wrapped file key, given the opened plaintext.
pub fn file_key_from_plain(plain: &[u8]) -> (r: Result<FileKey, Error>)
    ensures
        match r {
            Ok(k) => plain@.len() == 32 && k@ == plain@,
            Err(e) => plain@.len() != 32 && e == Error::KeyOrData,
        },
{
    match key_from_plain(plain) {
        Ok(k) => Ok(FileKey::from_bytes(k)),
        Err(e) => Err(e),
    }
}

// --------- ROW AEAD -----------------------------------------------------------

/// The little-endian bytes of `x`.
pub open spec fn spec_le_bytes(x: u64) -> Seq<u8> {
    Seq::new(8, |i: int| ((x as int / vstd::arithmetic::power2::pow2((8 * i) as nat) as int) % 256) as u8)
}

/// The associated data that binds a sealed row to its row id: the id's
/// eight little-endian bytes.
pub fn row_associated_data(row_id: u64) -> (ad: [u8; 8])
    ensures
        ad@ == spec_le_bytes(row_id),
{
    let mut ad = [0u8; 8];
    let mut x: u64 = row_id;
    let mut i: usize = 0;
    proof {
        vstd::arithmetic::power2::lemma2_to64();
        assert(vstd::arithmetic::power2::pow2(0) == 1);
        assert(((8 * i) as nat) == 0);
        assert(row_id as int / 1 == row_id as int);
    }
    while i < 8
        invariant
            i <= 8,
            ad@.len() == 8,
            x as int == row_id as int / vstd::arithmetic::power2::pow2((8 * i) as nat) as int,
            forall|q: int| 0 <= q < i ==> ad@[q] == spec_le_bytes(row_id)[q],
        decreases 8 - i,
    {
        ad[i] = (x % 256) as u8;
        proof {
            vstd::arithmetic::power2::lemma_pow2_adds((8 * i) as nat, 8);
            vstd::arithmetic::power2::lemma_pow2_pos((8 * i) as nat);
            vstd::arithmetic::power2::lemma2_to64();
            vstd::arithmetic::div_mod::lemma_div_denominator(
                row_id as int,
                vstd::arithmetic::power2::pow2((8 * i) as nat) as int,
                256,
            );
            assert(vstd::arithmetic::power2::pow2(((8 * i) + 8) as nat) == vstd::arithmetic::power2::pow2((8 * i) as nat) * 256);
        }
        x = x / 256;
        i = i + 1;
    }
    assert(ad@ =~= spec_le_bytes(row_id));
    ad
}

} // verus!

verus! {

// --------- BLOB CHUNKING ------------------------------------------------------

/// The concatenation of a sequence of chunks.
pub open spec fn spec_concat_chunks(cs: Seq<Vec<u8>>) -> Seq<u8>
    decreases cs.len(),
{
    if cs.len() == 0 {
        Seq::empty()
    } else {
        spec_concat_chunks(cs.drop_last()) + cs.last()@
    }
}

/// Whether every chunk holds exactly [`PLAINTEXT_CHUNK_SIZE`] bytes.
pub open spec fn spec_all_full(cs: Seq<Vec<u8>>) -> bool {
    forall|i: int| 0 <= i < cs.len() ==> (#[trigger] cs[i])@.len() == PLAINTEXT_CHUNK_SIZE
}

/// The plaintext buffer of the streaming blob writer: bytes written but not
/// yet sealed into a chunk. It never holds a full chunk: a chunk is handed
/// out for sealing as soon as it fills.
pub struct ChunkBuffer {
    buffer: Vec<u8>,
}

impl View for ChunkBuffer {
    type V = Seq<u8>;

    closed spec fn view(&self) -> Seq<u8> {
        self.buffer@
    }
}

impl ChunkBuffer {
    #[verifier::type_invariant]
    spec fn inv(self) -> bool {
        self.buffer@.len() < PLAINTEXT_CHUNK_SIZE
    }

    /// An empty buffer.
    pub fn new() -> (b: Self)
        ensures
            b@ == Seq::<u8>::empty(),
    {
        ChunkBuffer { buffer: Vec::new() }
    }

    /// Append `data`, handing out every chunk that fills, in order.
    ///
    /// The chunks handed out, followed by what stays buffered, are the old
    /// buffer followed by `data`; every chunk is full and the buffer keeps
    /// less than a chunk.
    pub fn write_all(&mut self, data: &[u8]) -> (chunks: Vec<Vec<u8>>)
        ensures
            spec_concat_chunks(chunks@) + final(self)@ == old(self)@ + data@,
            spec_all_full(chunks@),
            final(self)@.len() < PLAINTEXT_CHUNK_SIZE,
    {
        proof { use_type_invariant(&*self); }
        let mut chunks: Vec<Vec<u8>> = Vec::new();
        let mut buf: Vec<u8> = Vec::new();
        std::mem::swap(&mut buf, &mut self.buffer);
        let ghost start = buf@;
        let mut i: usize = 0;
        while i < data.len()
            invariant
                i <= data@.len(),
                buf@.len() < PLAINTEXT_CHUNK_SIZE,
                spec_all_full(chunks@),
                spec_concat_chunks(chunks@) + buf@ == start + data@.subrange(0, i as int),
            decreases data@.len() - i,
        {
            let ghost cc = spec_concat_chunks(chunks@);
            let ghost old_buf = buf@;
            let x = data[i];
            buf.push(x);
            assert((cc + old_buf).push(x) =~= cc + buf@);
            assert((start + data@.subrange(0, i as int)).push(x) =~= start + data@.subrange(0, i + 1));
            i = i + 1;
            if buf.len() == PLAINTEXT_CHUNK_SIZE {
                let mut full: Vec<u8> = Vec::new();
                std::mem::swap(&mut full, &mut buf);
                let ghost old_chunks = chunks@;
                chunks.push(full);
                assert(chunks@.drop_last() =~= old_chunks);
                assert(spec_concat_chunks(chunks@) + buf@ =~= spec_concat_chunks(old_chunks) + full@);
            }
        }
        assert(data@.subrange(0, data@.len() as int) =~= data@);
        self.buffer = buf;
        chunks
    }

    /// The last chunk: whatever is buffered (possibly nothing).
    pub fn finish(self) -> (last: Vec<u8>)
        ensures
            last@ == self@,
            last@.len() < PLAINTEXT_CHUNK_SIZE,
    {
        proof { use_type_invariant(&self); }
        self.buffer
    }
}

/// Law: written data is never lost or reordered. Sealing the chunks handed
/// out by two successive writes and then the final chunk covers exactly the
/// two pieces of data, in order.
pub proof fn lemma_chunks_cover_writes(
    start: Seq<u8>,
    c1: Seq<Vec<u8>>,
    mid: Seq<u8>,
    d1: Seq<u8>,
    c2: Seq<Vec<u8>>,
    end: Seq<u8>,
    d2: Seq<u8>,
)
    requires
        spec_concat_chunks(c1) + mid == start + d1,
        spec_concat_chunks(c2) + end == mid + d2,
    ensures
        spec_concat_chunks(c1 + c2) + end == start + d1 + d2,
    decreases c2.len(),
{
    lemma_concat_chunks_append(c1, c2);
    assert(spec_concat_chunks(c1) + spec_concat_chunks(c2) + end =~= spec_concat_chunks(c1) + (
    spec_concat_chunks(c2) + end));
    assert(spec_concat_chunks(c1) + (mid + d2) =~= (spec_concat_chunks(c1) + mid) + d2);
}

pub proof fn lemma_concat_chunks_append(a: Seq<Vec<u8>>, b: Seq<Vec<u8>>)
    ensures
        spec_concat_chunks(a + b) == spec_concat_chunks(a) + spec_concat_chunks(b),
    decreases b.len(),
{
    if b.len() == 0 {
        assert(a + b =~= a);
        assert(spec_concat_chunks(a) + spec_concat_chunks(b) =~= spec_concat_chunks(a));
    } else {
        lemma_concat_chunks_append(a, b.drop_last());
        assert((a + b).drop_last() =~= a + b.drop_last());
        assert(spec_concat_chunks(a + b) =~= spec_concat_chunks(a) + spec_concat_chunks(b));
    }
}


// --------- BLOB FRAMING ON READ -----------------------------------------------

/// The largest sealed frame of a blob: a full plaintext chunk and the
/// secretstream overhead.
pub const FRAME_LEN: usize = PLAINTEXT_CHUNK_SIZE + SECRETSTREAM_ABYTES;

/// What the blob reader does with the bytes it pulled for the next frame.
#[derive(Debug, Clone, Copy, PartialEq, Eq)]
pub enum FrameStep {
    /// The final chunk was read before: the stream is over, nothing is read.
    Done,
    /// The input ended before the final chunk: truncated or corrupt.
    Truncated,
    /// Authenticate the frame.
    Open,
}

/// The decision the blob reader makes before authenticating a frame of
/// `filled` bytes, `finished` telling whether the final chunk was read.
pub fn frame_step(finished: bool, filled: usize) -> (s: FrameStep)
    ensures
        s == (if finished {
            FrameStep::Done
        } else if filled == 0 {
            FrameStep::Truncated
        } else {
            FrameStep::Open
        }),
{
    if finished {
        FrameStep::Done
    } else if filled == 0 {
        FrameStep::Truncated
    } else {
        FrameStep::Open
    }
}

/// The secretstream tag that marks the final chunk of a stream.
pub const SECRETSTREAM_TAG_FINAL: u8 = 3;

/// Whether the stream is over after a frame that carried `tag`.
pub fn finished_after(finished: bool, tag: u8) -> (f: bool)
    ensures
        f == (finished || tag == SECRETSTREAM_TAG_FINAL),
{
    finished || tag == SECRETSTREAM_TAG_FINAL
}

/// The frames that the blob reader pulls from a sealed stream (after the
/// prelude): it reads up to [`FRAME_LEN`] bytes at a time, so every frame but
/// the last is full.
pub open spec fn spec_frames(s: Seq<u8>) -> Seq<Seq<u8>>
    decreases s.len(),
{
    if s.len() == 0 {
        seq![]
    } else if s.len() <= FRAME_LEN {
        seq![s]
    } else {
        seq![s.subrange(0, FRAME_LEN as int)] + spec_frames(s.subrange(FRAME_LEN as int, s.len() as int))
    }
}

/// Frames laid end to end.
pub open spec fn spec_join(fs: Seq<Seq<u8>>) -> Seq<u8>
    decreases fs.len(),
{
    if fs.len() == 0 {
        seq![]
    } else {
        fs[0] + spec_join(fs.drop_first())
    }
}

/// Cut a sealed stream into the frames that the blob reader authenticates
/// one by one.
pub fn split_frames(stream: &[u8]) -> (frames: Vec<Vec<u8>>)
    ensures
        frames@.map_values(|f: Vec<u8>| f@) == spec_frames(stream@),
{
    let mut frames: Vec<Vec<u8>> = Vec::new();
    let mut at: usize = 0;
    assert(stream@.subrange(0, stream@.len() as int) =~= stream@);
    assert(frames@.map_values(|f: Vec<u8>| f@) + spec_frames(stream@) =~= spec_frames(stream@));
    while at < stream.len()
        invariant
            at <= stream@.len(),
            frames@.map_values(|f: Vec<u8>| f@) + spec_frames(stream@.subrange(at as int, stream@.len() as int))
                == spec_frames(stream@),
        decreases stream@.len() - at,
    {
        let ghost rest = stream@.subrange(at as int, stream@.len() as int);
        let ghost before = frames@.map_values(|f: Vec<u8>| f@);
        let left = stream.len() - at;
        let end = if left <= FRAME_LEN {
            stream.len()
        } else {
            at + FRAME_LEN
        };
        let f = copy_range(stream, at, end);
        frames.push(f);
        proof {
            assert(frames@.map_values(|f: Vec<u8>| f@) =~= before.push(f@));
            if left <= FRAME_LEN {
                assert(f@ =~= rest);
                assert(stream@.subrange(end as int, stream@.len() as int) =~= Seq::<u8>::empty());
                assert(spec_frames(rest) == seq![rest]);
                assert(before.push(f@) + seq![] =~= before + seq![rest]);
            } else {
                assert(f@ =~= rest.subrange(0, FRAME_LEN as int));
                assert(rest.subrange(FRAME_LEN as int, rest.len() as int) =~= stream@.subrange(end as int, stream@.len() as int));
                assert(before.push(f@) + spec_frames(stream@.subrange(end as int, stream@.len() as int))
                    =~= before + (seq![f@] + spec_frames(stream@.subrange(end as int, stream@.len() as int))));
            }
        }
        at = end;
    }
    assert(stream@.subrange(at as int, stream@.len() as int) =~= Seq::<u8>::empty());
    assert(frames@.map_values(|f: Vec<u8>| f@) + seq![] =~= frames@.map_values(|f: Vec<u8>| f@));
    frames
}

/// Law: the reader's framing recovers the writer's frames. A sealed blob is
/// a run of full frames (one per full plaintext chunk) closed by a shorter,
/// non-empty final frame; cutting their concatenation every [`FRAME_LEN`]
/// bytes gives back exactly those frames.
pub proof fn lemma_frames_of_sealed(fs: Seq<Seq<u8>>)
    requires
        fs.len() >= 1,
        forall|i: int| 0 <= i < fs.len() - 1 ==> (#[trigger] fs[i]).len() == FRAME_LEN,
        0 < fs.last().len() < FRAME_LEN,
    ensures
        spec_frames(spec_join(fs)) == fs,
    decreases fs.len(),
{
    let j = spec_join(fs);
    if fs.len() == 1 {
        assert(fs.drop_first() =~= Seq::<Seq<u8>>::empty());
        assert(j =~= fs[0]);
        assert(spec_frames(j) =~= fs);
    } else {
        let tail = fs.drop_first();
        assert forall|i: int| 0 <= i < tail.len() - 1 implies (#[trigger] tail[i]).len() == FRAME_LEN by {
            assert(tail[i] == fs[i + 1]);
        }
        assert(tail.last() == fs.last());
        lemma_frames_of_sealed(tail);
        lemma_join_len(tail);
        assert(fs[0].len() == FRAME_LEN);
        assert(j.subrange(0, FRAME_LEN as int) =~= fs[0]);
        assert(j.subrange(FRAME_LEN as int, j.len() as int) =~= spec_join(tail));
        assert(spec_frames(j) =~= seq![fs[0]] + tail);
        assert(seq![fs[0]] + tail =~= fs);
    }
}

proof fn lemma_join_len(fs: Seq<Seq<u8>>)
    requires
        fs.len() >= 1,
        0 < fs.last().len(),
    ensures
        spec_join(fs).len() > 0,
    decreases fs.len(),
{
    if fs.len() > 1 {
        assert(fs.drop_first().last() == fs.last());
        lemma_join_len(fs.drop_first());
    }
}

/// Law: the sizes of the wire formats. Plaintext is sealed in 4 MiB chunks,
/// each growing by the 17 bytes of secretstream overhead; a sealed row
/// carries a 24-byte nonce and a 16-byte tag; a wrapped key a 24-byte nonce
/// and a 16-byte tag; salts have 16 bytes.
pub proof fn lemma_format_sizes()
    ensures
        PLAINTEXT_CHUNK_SIZE == 4 * 1024 * 1024,
        SECRETSTREAM_ABYTES == 17,
        FRAME_LEN == 4 * 1024 * 1024 + 17,
        ROW_NONCE_LEN == 24,
        ROW_TAG_LEN == 16,
        SECRETBOX_NONCE_LEN == 24,
        SECRETBOX_TAG_LEN == 16,
        SALT_LEN == 16,
        SECRETSTREAM_TAG_FINAL == 3,
{
}

/// Law: a row's associated data is its id in little-endian order: byte `i`
/// is the id divided by 256 to the `i`, modulo 256.
pub proof fn lemma_le_bytes_rule(x: u64)
    ensures
        spec_le_bytes(x).len() == 8,
        spec_le_bytes(x)[0] == x % 256,
        spec_le_bytes(x)[1] == (x / 0x100) % 256,
        spec_le_bytes(x)[2] == (x / 0x10000) % 256,
        spec_le_bytes(x)[3] == (x / 0x1000000) % 256,
        spec_le_bytes(x)[4] == (x / 0x100000000) % 256,
        spec_le_bytes(x)[5] == (x / 0x10000000000) % 256,
        spec_le_bytes(x)[6] == (x / 0x1000000000000) % 256,
        spec_le_bytes(x)[7] == (x / 0x100000000000000) % 256,
{
    vstd::arithmetic::power2::lemma2_to64();
    vstd::arithmetic::power2::lemma2_to64_rest();
    assert(vstd::arithmetic::power2::pow2(0) == 1);
    assert(x as int / 1 == x as int);
    assert(spec_le_bytes(x)[0] == ((x as int / vstd::arithmetic::power2::pow2(0) as int) % 256) as u8);
}

} // verus!
