//! Signing and verification of certification requests (CSRs).
//!
//! A certification request carries an inner payload (the request info), an
//! algorithm identifier and a signature over the canonical DER encoding of
//! the payload. The request is self-signed: the key that verifies the
//! signature is the public key embedded in the payload itself.

pub mod codec;
pub mod crypto;
pub mod request;
pub mod types;
