//! Library analytics: smart-album rules, on-this-day memories and trips.

pub mod memories;
pub mod smart_albums;
pub mod trips;
