//! Keepsake core library: the verified logic of a local-first, encrypted,
//! deduplicating personal media vault.
//!
//! The modules hold the parts of the vault whose behaviour can be stated
//! exactly: the on-disk blob framing, key-wrapping layouts, the chunking of
//! the streaming blob cipher, blind-index tokenisation, XMP sidecar
//! extraction and rendering, media pairing heuristics, smart-album rule
//! compilation, on-this-day memories, trip grouping, the layout and garbage
//! collection of the content-addressed store, migration plans, map-tile
//! routing, and the values and errors handed to the frontend.

pub mod analytics;
pub mod blind_text;
pub mod cas;
pub mod crypto;
pub mod db;
pub mod dto;
pub mod error;
pub mod export;
pub mod geocode;
pub mod ingest;
pub mod media;
pub mod paths;
pub mod share;
pub mod text;
pub mod tiles;

pub use error::Error;
