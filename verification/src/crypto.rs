//! Trusted bindings to the public-key primitives.
//!
//! Each binding names the outside function it relies on. Signing with PKCS#1
//! v1.5 and with deterministic ECDSA, and verification of either scheme, are
//! functions of their byte-string arguments alone, so each outcome is given a
//! name that the callers' contracts speak of; nothing more is assumed of the
//! cryptography.

use vstd::prelude::*;

use rsa::pkcs8::DecodePrivateKey;
use rsa::pkcs8::DecodePublicKey;
use rsa::signature::SignatureEncoding;
use rsa::signature::Signer;
use rsa::signature::Verifier;

verus! {

/// Whether the PKCS#1 v1.5 / SHA-256 signature `sig` by the key in the
/// SubjectPublicKeyInfo document `spki` is valid for `msg`.
pub uninterp spec fn rsa_pkcs1v15_sha256_verifies(spki: Seq<u8>, msg: Seq<u8>, sig: Seq<u8>) -> bool;

/// The PKCS#1 v1.5 / SHA-256 signature of `msg` by the PKCS#8 private-key
/// document `key`, or `None` where the document does not hold a usable RSA key.
pub uninterp spec fn rsa_pkcs1v15_sha256_signature(key: Seq<u8>, msg: Seq<u8>) -> Option<Seq<u8>>;

/// Whether the ECDSA P-256 / SHA-256 signature `sig` (in its DER form) by the
/// key in the SubjectPublicKeyInfo document `spki` is valid for `msg`.
pub uninterp spec fn ecdsa_p256_sha256_verifies(spki: Seq<u8>, msg: Seq<u8>, sig: Seq<u8>) -> bool;

/// The deterministic ECDSA P-256 / SHA-256 signature of `msg` (in its DER
/// form) by the PKCS#8 private-key document `key`, or `None` where the
/// document does not hold a usable P-256 key.
pub uninterp spec fn ecdsa_p256_sha256_signature(key: Seq<u8>, msg: Seq<u8>) -> Option<Seq<u8>>;

/// Relies on rsa's `pkcs1v15::VerifyingKey::<Sha256>::verify`: decoding the
/// key from SubjectPublicKeyInfo DER and checking the signature depend on the
/// three byte strings alone.
#[verifier::external_body]
pub(crate) fn rsa_verify(spki: &Vec<u8>, msg: &Vec<u8>, sig: &Vec<u8>) -> (r: bool)
    ensures
        r == rsa_pkcs1v15_sha256_verifies(spki@, msg@, sig@),
{
    let key = match rsa::RsaPublicKey::from_public_key_der(spki.as_slice()) {
        Ok(k) => rsa::pkcs1v15::VerifyingKey::<sha2::Sha256>::new(k),
        Err(_) => return false,
    };
    let parsed = match rsa::pkcs1v15::Signature::try_from(sig.as_slice()) {
        Ok(s) => s,
        Err(_) => return false,
    };
    key.verify(msg.as_slice(), &parsed).is_ok()
}

/// Relies on rsa's `pkcs1v15::SigningKey::<Sha256>::try_sign`: PKCS#1 v1.5
/// signing is deterministic, a function of the key document and the message.
#[verifier::external_body]
pub(crate) fn rsa_sign(key: &Vec<u8>, msg: &Vec<u8>) -> (r: Option<Vec<u8>>)
    ensures
        r is Some <==> rsa_pkcs1v15_sha256_signature(key@, msg@) is Some,
        r matches Some(v) ==> v@ == rsa_pkcs1v15_sha256_signature(key@, msg@).unwrap(),
{
    let sk = match rsa::RsaPrivateKey::from_pkcs8_der(key.as_slice()) {
        Ok(k) => rsa::pkcs1v15::SigningKey::<sha2::Sha256>::new(k),
        Err(_) => return None,
    };
    match sk.try_sign(msg.as_slice()) {
        Ok(s) => Some(s.to_vec()),
        Err(_) => None,
    }
}

/// Relies on p256's `ecdsa::VerifyingKey::verify` with a DER-form signature:
/// decoding the key and checking the signature depend on the three byte
/// strings alone.
#[verifier::external_body]
pub(crate) fn ecdsa_p256_verify(spki: &Vec<u8>, msg: &Vec<u8>, sig: &Vec<u8>) -> (r: bool)
    ensures
        r == ecdsa_p256_sha256_verifies(spki@, msg@, sig@),
{
    let key = match p256::ecdsa::VerifyingKey::from_public_key_der(spki.as_slice()) {
        Ok(k) => k,
        Err(_) => return false,
    };
    let parsed = match p256::ecdsa::DerSignature::from_bytes(sig.as_slice()) {
        Ok(s) => s,
        Err(_) => return false,
    };
    key.verify(msg.as_slice(), &parsed).is_ok()
}

/// Relies on p256's `ecdsa::SigningKey::try_sign` (deterministic, RFC 6979):
/// the signature is a function of the key document and the message.
#[verifier::external_body]
pub(crate) fn ecdsa_p256_sign(key: &Vec<u8>, msg: &Vec<u8>) -> (r: Option<Vec<u8>>)
    ensures
        r is Some <==> ecdsa_p256_sha256_signature(key@, msg@) is Some,
        r matches Some(v) ==> v@ == ecdsa_p256_sha256_signature(key@, msg@).unwrap(),
{
    let sk = match p256::ecdsa::SigningKey::from_pkcs8_der(key.as_slice()) {
        Ok(k) => k,
        Err(_) => return None,
    };
    let sig: p256::ecdsa::Signature = match sk.try_sign(msg.as_slice()) {
        Ok(s) => s,
        Err(_) => return None,
    };
    Some(sig.to_der().to_vec())
}

} // verus!
