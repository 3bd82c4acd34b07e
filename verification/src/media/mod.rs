//! Media heuristics: pairing of related files, derivative sizes, MIME
//! sniffing, the screenshot heuristic and the reading of EXIF text.

pub mod derive;
pub mod exif;
pub mod pairs;
pub mod probe;
