//! HKDF (RFC 5869) built on an HMAC primitive: `extract` condenses input
//! keying material into a pseudorandom key, `expand` stretches that key into
//! output keying material of any length up to 255 digests.

pub mod kdf;
pub mod mac;

pub use kdf::{expand, extract, Ikm, Okm, Prk};
pub use mac::Algorithm;
