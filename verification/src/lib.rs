//! Builds a license payload, obfuscates it with a keyed byte-feedback stream
//! cipher and renders the result in a private base64-like alphabet.

pub mod cipher;
pub mod encoder;
pub mod license;
pub mod payload;
