//! Crypto layer: wire formats, key-wrapping layouts and the key material
//! held by an unlocked vault.

pub mod envelope;
pub mod format;
pub mod keystore;
pub mod unlock;
