//! A verified SRTP/SRTCP stream protection engine.
//!
//! The library manages per-stream cryptographic state (derived session keys,
//! rollover counter, replay window) and applies a crypto policy to turn a
//! plaintext RTP/RTCP packet into an authenticated ciphertext packet and back.
//! The cryptographic primitives (AES block function, HMAC-SHA1, AES-GCM) are
//! supplied by outside crates through trusted wrappers; everything built on
//! them - key derivation, counter-mode keystreams, header parsing, replay and
//! rollover tracking, the protect/unprotect transforms - is verified.

pub mod errors;
pub mod bytes;
pub mod crypto;
pub mod cm;
pub mod header;
pub mod policy;
pub mod replay;
pub mod stream;
pub mod session;
pub mod rtcp;
