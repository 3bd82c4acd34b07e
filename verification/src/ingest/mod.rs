//! Ingest: the XMP sidecar format and its escaping, the ingest adapters'
//! classification of source files, and the tally of an ingest run.

pub mod adapters;
pub mod escape;
pub mod packet_scan;
pub mod report;
pub mod round_trip;
pub mod sidecar;
pub mod takeout;
