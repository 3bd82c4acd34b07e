use mv_core::crypto::envelope::{
    file_key_from_plain, frame_sealed, key_from_plain, master_key_from_plain,
    row_associated_data, split_frames, split_row, split_wrapped, ChunkBuffer, PeerKeypair,
    FRAME_LEN, PLAINTEXT_CHUNK_SIZE, ROW_NONCE_LEN, SECRETBOX_NONCE_LEN, SECRETSTREAM_ABYTES,
};
use mv_core::crypto::format::{
    parse_blob_prelude, serialise_blob_prelude, MAGIC, MAGIC_LEN, SECRETSTREAM_HEADER_LEN,
};
use mv_core::crypto::keystore::AlbumKey;
use mv_core::error::{wire, AppError};
use mv_core::Error;

// ---------------------------------------------------------------- format

#[test]
fn magic_is_four_bytes() {
    assert_eq!(MAGIC.len(), 4);
    assert_eq!(&MAGIC, b"MVV1");
}

#[test]
fn prelude_round_trip() {
    let header = [7u8; SECRETSTREAM_HEADER_LEN];
    let buf = serialise_blob_prelude(&header);
    assert_eq!(buf.len(), MAGIC_LEN + SECRETSTREAM_HEADER_LEN);
    let parsed = parse_blob_prelude(&buf).unwrap();
    assert_eq!(parsed, header);
}

#[test]
fn prelude_rejects_bad_magic() {
    let mut buf = vec![0u8; MAGIC_LEN + SECRETSTREAM_HEADER_LEN];
    buf[..MAGIC_LEN].copy_from_slice(b"XXXX");
    assert!(matches!(parse_blob_prelude(&buf), Err(Error::BlobFormat)));
}

#[test]
fn prelude_rejects_short_input() {
    let buf = vec![0u8; MAGIC_LEN + SECRETSTREAM_HEADER_LEN - 1];
    assert!(matches!(parse_blob_prelude(&buf), Err(Error::BlobFormat)));
}

#[test]
fn prelude_ignores_bytes_after_the_header() {
    let mut header = [0u8; SECRETSTREAM_HEADER_LEN];
    for (i, b) in header.iter_mut().enumerate() {
        *b = i as u8;
    }
    let mut buf = serialise_blob_prelude(&header);
    assert_eq!(&buf[..4], b"MVV1");
    buf.extend_from_slice(b"chunk bytes");
    assert_eq!(parse_blob_prelude(&buf).unwrap(), header);
}

// ---------------------------------------------------------------- layouts

#[test]
fn sealed_values_split_into_nonce_and_ciphertext() {
    let nonce = [9u8; SECRETBOX_NONCE_LEN];
    let ct = [1u8, 2, 3, 4, 5, 6, 7, 8, 9, 10, 11, 12, 13, 14, 15, 16, 17];
    let framed = frame_sealed(&nonce, &ct);
    assert_eq!(framed.len(), 24 + 17);
    let (n, c) = split_wrapped(&framed).unwrap();
    assert_eq!(n, nonce.to_vec());
    assert_eq!(c, ct.to_vec());
    let (rn, rc) = split_row(&framed).unwrap();
    assert_eq!(rn.len(), ROW_NONCE_LEN);
    assert_eq!(rc, ct.to_vec());
}

#[test]
fn too_short_sealed_values_are_key_or_data() {
    assert_eq!(split_wrapped(&[0u8; 39]), Err(Error::KeyOrData));
    assert_eq!(split_row(&[0u8; 39]), Err(Error::KeyOrData));
    assert!(split_wrapped(&[0u8; 40]).is_ok());
}

#[test]
fn keys_need_exactly_32_bytes() {
    assert_eq!(key_from_plain(&[4u8; 32]), Ok([4u8; 32]));
    assert_eq!(key_from_plain(&[4u8; 31]), Err(Error::KeyOrData));
    assert!(master_key_from_plain(&[4u8; 33]).is_err());
    assert_eq!(file_key_from_plain(&[6u8; 32]).unwrap().as_bytes(), &[6u8; 32]);
}

#[test]
fn row_id_is_little_endian_associated_data() {
    assert_eq!(row_associated_data(0), [0u8; 8]);
    assert_eq!(row_associated_data(0x0102030405060708), [8, 7, 6, 5, 4, 3, 2, 1]);
    assert_eq!(row_associated_data(u64::MAX), [0xff; 8]);
}

#[test]
fn iroh_keypair_accepts_only_its_own_public_key() {
    let kp = PeerKeypair::from_iroh_seed_and_public([1u8; 32], [2u8; 32], [2u8; 32]).unwrap();
    assert_eq!(kp.public.0, [2u8; 32]);
    assert_eq!(kp.secret_bytes(), &[1u8; 32]);
    assert!(matches!(
        PeerKeypair::from_iroh_seed_and_public([1u8; 32], [2u8; 32], [3u8; 32]),
        Err(Error::KeyOrData)
    ));
}

#[test]
fn album_key_keeps_its_bytes() {
    assert_eq!(AlbumKey::from_bytes([5u8; 32]).as_bytes(), &[5u8; 32]);
}

// ---------------------------------------------------------------- chunking

#[test]
fn chunk_buffer_hands_out_full_chunks_in_order() {
    let mut b = ChunkBuffer::new();
    let first = vec![1u8; PLAINTEXT_CHUNK_SIZE - 1];
    assert!(b.write_all(&first).is_empty());
    let chunks = b.write_all(&[2u8, 3, 4]);
    assert_eq!(chunks.len(), 1);
    assert_eq!(chunks[0].len(), PLAINTEXT_CHUNK_SIZE);
    assert_eq!(chunks[0][PLAINTEXT_CHUNK_SIZE - 1], 2);
    assert_eq!(b.finish(), vec![3u8, 4]);
}

#[test]
fn empty_blob_has_an_empty_final_chunk() {
    let b = ChunkBuffer::new();
    assert!(b.finish().is_empty());
}

#[test]
fn reader_frames_recover_writer_frames() {
    assert_eq!(FRAME_LEN, PLAINTEXT_CHUNK_SIZE + SECRETSTREAM_ABYTES);
    let full = vec![1u8; FRAME_LEN];
    let last = vec![2u8; 40];
    let mut stream = full.clone();
    stream.extend_from_slice(&full);
    stream.extend_from_slice(&last);
    let frames = split_frames(&stream);
    assert_eq!(frames, vec![full.clone(), full, last]);
    assert!(split_frames(&[]).is_empty());
    assert_eq!(split_frames(&[7u8; 17]), vec![vec![7u8; 17]]);
}

// ---------------------------------------------------------------- errors

#[test]
fn crypto_display_is_opaque() {
    // The crypto variant must not leak implementation detail.
    assert_eq!(Error::Crypto.message(), "crypto failure");
    assert_eq!(Error::KeyOrData.message(), "key wrong or data corrupt");
}

#[test]
fn locked_and_rate_limited_are_generic() {
    assert_eq!(Error::Locked.message(), "locked");
    assert_eq!(Error::RateLimited.message(), "rate limited");
}

#[test]
fn media_and_ingest_carry_context() {
    let m = Error::Media("unsupported codec".into());
    assert_eq!(m.message(), "media: unsupported codec");
    let i = Error::Ingest("source path vanished".into());
    assert_eq!(i.message(), "ingest: source path vanished");
}

#[test]
fn every_error_has_its_message() {
    assert_eq!(Error::BlobFormat.message(), "invalid blob format");
    assert_eq!(Error::Io("entity not found".into()).message(), "i/o: entity not found");
    assert_eq!(Error::Db("busy".into()).message(), "db: busy");
    assert_eq!(Error::NotFound.message(), "not found");
    assert_eq!(Error::ModelsUnavailable.message(), "models unavailable");
    assert_eq!(Error::MlModelChecksum("clip").message(), "model checksum mismatch: clip");
    assert_eq!(Error::MlModelShape("scrfd").message(), "model shape mismatch: scrfd");
    assert_eq!(Error::TicketFormat("too short").message(), "pairing ticket format: too short");
    assert_eq!(Error::TicketSignature.message(), "pairing ticket signature invalid");
    assert_eq!(Error::PeerUnreachable.message(), "peer unreachable");
}

#[test]
fn app_errors_hide_crypto_detail() {
    assert_eq!(AppError::from_core(Error::Crypto), AppError::Crypto);
    assert_eq!(AppError::from_core(Error::BlobFormat), AppError::Crypto);
    assert_eq!(AppError::from_core(Error::KeyOrData), AppError::Crypto);
    assert_eq!(AppError::from_core(Error::Io("x".into())), AppError::Io("x".into()));
    assert_eq!(AppError::from_core(Error::Db("y".into())), AppError::Db("y".into()));
    assert_eq!(AppError::from_core(Error::Media("m".into())), AppError::Ingest("m".into()));
    assert_eq!(AppError::from_core(Error::Ingest("i".into())), AppError::Ingest("i".into()));
    assert_eq!(AppError::from_core(Error::NotFound), AppError::NotFound);
    assert_eq!(AppError::from_core(Error::Locked), AppError::Locked);
    assert_eq!(
        AppError::from_core(Error::RateLimited),
        AppError::BadRequest("rate limited".into())
    );
    assert_eq!(AppError::from_core(Error::PeerUnreachable), AppError::Internal);
}

#[test]
fn wire_turns_errors_into_their_messages() {
    assert_eq!(wire::<i64>(Ok(5)), Ok(5));
    assert_eq!(wire::<i64>(Err(AppError::BadRequest("unknown adapter: x".into()))), Err("bad request: unknown adapter: x".to_string()));
    assert_eq!(AppError::AlreadyExists.message(), "already exists");
    assert_eq!(AppError::Internal.message(), "internal");
    assert_eq!(AppError::Crypto.message(), "crypto");
    assert_eq!(AppError::Io("denied".into()).message(), "io: denied");
}
