# mv_core

The core of Keepsake, a local-first, end-to-end encrypted media vault, as a
Verus-verified library.

- `src/` — the verified library: blob and row wire formats, key-wrapping
  layouts, the chunking of the streaming blob cipher, blind-index
  tokenising, XMP sidecar text, Live Photo / RAW+JPEG / burst detection,
  MIME sniffing, which probes run for a file, thumbnail derivation, what
  the vault keeps of an EXIF block, Google Takeout metadata, the checks of
  signup and share requests, the steps of a multi-user unlock, smart-album
  rules, on-this-day memories, trip grouping and day ranges, the places
  view, album export names and tallies, content addresses, the
  content-addressed store layout and garbage collection plans, migration
  plans, map-tile routing, and the values and errors the frontend sees.
  `src/ingest/round_trip.rs` proves that parsing a rendered XMP packet
  gives the fields back, with `src/ingest/packet_scan.rs` holding the facts
  about where the parser's searches stop in a packet. Calls into `blake3`,
  `chrono`, `exif`, `hex`, `image`, `infer` and `std::path` go through
  small trusted wrappers whose contracts state or name what the call
  returns.
- `app/` — the edges around the library: libsodium, the file system,
  SQLite, the HEIF, video and RAW probes, floating-point geometry (reverse
  geocoding, place centroids, DBSCAN clustering, EXIF and Takeout GPS, GPS
  text, face crops), and the date of today for memories.
- `tests/` — tests of the library through its public interface.
