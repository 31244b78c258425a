//! Verification and signing of certification requests.
//!
//! The verifier re-derives the canonical encoding of the request-info payload
//! and checks the outer signature against the public key embedded in that
//! same payload (the request is self-signed). The signer derives the
//! algorithm from the private key, signs the canonical payload encoding, and
//! assembles and encodes the final signed request.

use vstd::prelude::*;

use crate::codec::bytes_eq;
use crate::codec::encode_info;
use crate::codec::encode_request;
use crate::codec::encoded_info;
use crate::codec::encoded_request;
use crate::codec::info_encodable;
use crate::codec::request_encodable;
use crate::crypto::ecdsa_p256_sha256_signature;
use crate::crypto::ecdsa_p256_sha256_verifies;
use crate::crypto::ecdsa_p256_sign;
use crate::crypto::ecdsa_p256_verify;
use crate::crypto::rsa_pkcs1v15_sha256_signature;
use crate::crypto::rsa_pkcs1v15_sha256_verifies;
use crate::crypto::rsa_sign;
use crate::crypto::rsa_verify;
use crate::types::AlgorithmIdentifier;
use crate::types::AlgorithmIdentifierView;
use crate::types::Error;
use crate::types::PrivateKey;
use crate::types::PrivateKeyView;
use crate::types::RequestInfoPayload;
use crate::types::RequestInfoPayloadView;
use crate::types::SignatureBits;
use crate::types::SignatureBitsView;
use crate::types::SignedRequest;
use crate::types::SignedRequestView;
use crate::types::StructuralCause;

verus! {

/// The single version value this format defines (v1).
pub const SUPPORTED_VERSION: u8 = 0;

/// Object identifier content bytes of rsaEncryption (1.2.840.113549.1.1.1).
pub open spec fn oid_rsa_encryption() -> Seq<u8> {
    seq![0x2Au8, 0x86u8, 0x48u8, 0x86u8, 0xF7u8, 0x0Du8, 0x01u8, 0x01u8, 0x01u8]
}

/// Object identifier content bytes of sha256WithRSAEncryption
/// (1.2.840.113549.1.1.11).
pub open spec fn oid_sha256_with_rsa() -> Seq<u8> {
    seq![0x2Au8, 0x86u8, 0x48u8, 0x86u8, 0xF7u8, 0x0Du8, 0x01u8, 0x01u8, 0x0Bu8]
}

/// Object identifier content bytes of id-ecPublicKey (1.2.840.10045.2.1).
pub open spec fn oid_ec_public_key() -> Seq<u8> {
    seq![0x2Au8, 0x86u8, 0x48u8, 0xCEu8, 0x3Du8, 0x02u8, 0x01u8]
}

/// Object identifier content bytes of ecdsa-with-SHA256 (1.2.840.10045.4.3.2).
pub open spec fn oid_ecdsa_sha256() -> Seq<u8> {
    seq![0x2Au8, 0x86u8, 0x48u8, 0xCEu8, 0x3Du8, 0x04u8, 0x03u8, 0x02u8]
}

/// The DER NULL element, used as the RSA signature-algorithm parameters.
pub open spec fn der_null() -> Seq<u8> {
    seq![0x05u8, 0x00u8]
}

/// The named-curve parameters element of a P-256 key: the OBJECT IDENTIFIER
/// element of prime256v1 (1.2.840.10045.3.1.7).
pub open spec fn p256_parameters() -> Seq<u8> {
    seq![0x06u8, 0x08u8, 0x2Au8, 0x86u8, 0x48u8, 0xCEu8, 0x3Du8, 0x03u8, 0x01u8, 0x07u8]
}

pub fn oid_rsa_encryption_bytes() -> (r: Vec<u8>)
    ensures
        r@ == oid_rsa_encryption(),
{
    let mut v: Vec<u8> = Vec::new();
    v.push(0x2Au8);
    v.push(0x86u8);
    v.push(0x48u8);
    v.push(0x86u8);
    v.push(0xF7u8);
    v.push(0x0Du8);
    v.push(0x01u8);
    v.push(0x01u8);
    v.push(0x01u8);
    assert(v@ =~= oid_rsa_encryption());
    v
}

pub fn oid_sha256_with_rsa_bytes() -> (r: Vec<u8>)
    ensures
        r@ == oid_sha256_with_rsa(),
{
    let mut v: Vec<u8> = Vec::new();
    v.push(0x2Au8);
    v.push(0x86u8);
    v.push(0x48u8);
    v.push(0x86u8);
    v.push(0xF7u8);
    v.push(0x0Du8);
    v.push(0x01u8);
    v.push(0x01u8);
    v.push(0x0Bu8);
    assert(v@ =~= oid_sha256_with_rsa());
    v
}

pub fn oid_ec_public_key_bytes() -> (r: Vec<u8>)
    ensures
        r@ == oid_ec_public_key(),
{
    let mut v: Vec<u8> = Vec::new();
    v.push(0x2Au8);
    v.push(0x86u8);
    v.push(0x48u8);
    v.push(0xCEu8);
    v.push(0x3Du8);
    v.push(0x02u8);
    v.push(0x01u8);
    assert(v@ =~= oid_ec_public_key());
    v
}

pub fn oid_ecdsa_sha256_bytes() -> (r: Vec<u8>)
    ensures
        r@ == oid_ecdsa_sha256(),
{
    let mut v: Vec<u8> = Vec::new();
    v.push(0x2Au8);
    v.push(0x86u8);
    v.push(0x48u8);
    v.push(0xCEu8);
    v.push(0x3Du8);
    v.push(0x04u8);
    v.push(0x03u8);
    v.push(0x02u8);
    assert(v@ =~= oid_ecdsa_sha256());
    v
}

pub fn der_null_bytes() -> (r: Vec<u8>)
    ensures
        r@ == der_null(),
{
    let mut v: Vec<u8> = Vec::new();
    v.push(0x05u8);
    v.push(0x00u8);
    assert(v@ =~= der_null());
    v
}

pub fn p256_parameters_bytes() -> (r: Vec<u8>)
    ensures
        r@ == p256_parameters(),
{
    let mut v: Vec<u8> = Vec::new();
    v.push(0x06u8);
    v.push(0x08u8);
    v.push(0x2Au8);
    v.push(0x86u8);
    v.push(0x48u8);
    v.push(0xCEu8);
    v.push(0x3Du8);
    v.push(0x03u8);
    v.push(0x01u8);
    v.push(0x07u8);
    assert(v@ =~= p256_parameters());
    v
}

/// The signature algorithm an RSA key signs with.
pub open spec fn rsa_sha256_algorithm() -> AlgorithmIdentifierView {
    AlgorithmIdentifierView { oid: oid_sha256_with_rsa(), params: Option::Some(der_null()) }
}

/// The signature algorithm a P-256 key signs with.
pub open spec fn ecdsa_sha256_algorithm() -> AlgorithmIdentifierView {
    AlgorithmIdentifierView { oid: oid_ecdsa_sha256(), params: Option::None }
}

pub open spec fn is_rsa_key(k: PrivateKeyView) -> bool {
    k.algorithm_oid == oid_rsa_encryption()
}

pub open spec fn is_p256_key(k: PrivateKeyView) -> bool {
    k.algorithm_oid == oid_ec_public_key() && k.parameters == Option::Some(p256_parameters())
}

/// The algorithm a key signs with, derived from the key alone: an RSA key
/// signs with sha256WithRSAEncryption, a P-256 key with ecdsa-with-SHA256,
/// and any other key type is unsupported.
pub open spec fn key_signing_algorithm(k: PrivateKeyView) -> Option<AlgorithmIdentifierView> {
    if is_rsa_key(k) {
        Option::Some(rsa_sha256_algorithm())
    } else if is_p256_key(k) {
        Option::Some(ecdsa_sha256_algorithm())
    } else {
        Option::None
    }
}

/// The signature the key produces over `msg`, per its key type.
pub open spec fn key_signature(k: PrivateKeyView, msg: Seq<u8>) -> Option<Seq<u8>> {
    if is_rsa_key(k) {
        rsa_pkcs1v15_sha256_signature(k.key_der, msg)
    } else if is_p256_key(k) {
        ecdsa_p256_sha256_signature(k.key_der, msg)
    } else {
        Option::None
    }
}

/// Whether the signature `sig` over `msg` is valid under algorithm `a` for
/// the key in the SubjectPublicKeyInfo document `spki`. An algorithm this
/// crate does not know never accepts.
pub open spec fn signature_accepted(
    spki: Seq<u8>,
    a: AlgorithmIdentifierView,
    msg: Seq<u8>,
    sig: Seq<u8>,
) -> bool {
    if a == rsa_sha256_algorithm() {
        rsa_pkcs1v15_sha256_verifies(spki, msg, sig)
    } else if a == ecdsa_sha256_algorithm() {
        ecdsa_p256_sha256_verifies(spki, msg, sig)
    } else {
        false
    }
}

/// The signed request assembled from a payload, an algorithm and raw
/// signature bytes (carried as a byte-aligned bit string).
pub open spec fn assembled(
    p: RequestInfoPayloadView,
    a: AlgorithmIdentifierView,
    sig: Seq<u8>,
) -> SignedRequestView {
    SignedRequestView {
        info: p,
        algorithm: a,
        signature: SignatureBitsView { unused_bits: 0, bytes: sig },
    }
}

/// What verification returns, as a function of the request value: version
/// first, then bit-string alignment, then encodability, and only then the
/// cryptographic check against the public key embedded in the payload.
pub open spec fn verification_outcome(r: SignedRequestView) -> Result<
    RequestInfoPayloadView,
    Error,
> {
    if r.info.version != SUPPORTED_VERSION {
        Err(Error::StructuralError(StructuralCause::UnsupportedVersion))
    } else if r.signature.unused_bits != 0 {
        Err(Error::StructuralError(StructuralCause::InvalidSignatureEncoding))
    } else if !info_encodable(r.info) {
        Err(Error::EncodingError)
    } else if signature_accepted(
        r.info.public_key,
        r.algorithm,
        encoded_info(r.info),
        r.signature.bytes,
    ) {
        Ok(r.info)
    } else {
        Err(Error::SignatureVerificationError)
    }
}

/// Sign-then-verify, the structural part: a request assembled from a
/// payload, the algorithm derived from the key, and a signature over the
/// canonical payload encoding is returned intact by the verifier, whenever
/// that signature is one the declared algorithm accepts. That a correctly
/// produced signature is accepted by its own public key is a property of the
/// outside cryptographic primitives, exercised by tests, not proved here.
pub proof fn lemma_sign_then_verify(p: RequestInfoPayloadView, k: PrivateKeyView)
    requires
        p.version == SUPPORTED_VERSION,
        info_encodable(p),
        key_signing_algorithm(k) is Some,
        key_signature(k, encoded_info(p)) is Some,
        signature_accepted(
            p.public_key,
            key_signing_algorithm(k).unwrap(),
            encoded_info(p),
            key_signature(k, encoded_info(p)).unwrap(),
        ),
    ensures
        verification_outcome(
            assembled(
                p,
                key_signing_algorithm(k).unwrap(),
                key_signature(k, encoded_info(p)).unwrap(),
            ),
        ) == Ok::<RequestInfoPayloadView, Error>(p),
{
}

fn is_rsa_signature_algorithm(a: &AlgorithmIdentifier) -> (r: bool)
    ensures
        r <==> a@ == rsa_sha256_algorithm(),
{
    let oid_ok = bytes_eq(a.oid.as_slice(), oid_sha256_with_rsa_bytes().as_slice());
    let params_ok = match &a.params {
        Option::Some(p) => bytes_eq(p.as_slice(), der_null_bytes().as_slice()),
        Option::None => false,
    };
    oid_ok && params_ok
}

fn is_ecdsa_signature_algorithm(a: &AlgorithmIdentifier) -> (r: bool)
    ensures
        r <==> a@ == ecdsa_sha256_algorithm(),
{
    let oid_ok = bytes_eq(a.oid.as_slice(), oid_ecdsa_sha256_bytes().as_slice());
    let params_absent = match &a.params {
        Option::Some(_) => false,
        Option::None => true,
    };
    oid_ok && params_absent
}

/// Checks a signature over `msg` under algorithm `a` with the key in `spki`.
pub fn check_signature(
    spki: &Vec<u8>,
    a: &AlgorithmIdentifier,
    msg: &Vec<u8>,
    sig: &Vec<u8>,
) -> (r: bool)
    ensures
        r == signature_accepted(spki@, a@, msg@, sig@),
{
    if is_rsa_signature_algorithm(a) {
        rsa_verify(spki, msg, sig)
    } else if is_ecdsa_signature_algorithm(a) {
        ecdsa_p256_verify(spki, msg, sig)
    } else {
        false
    }
}

/// Derives the signature algorithm from the private key. The caller never
/// chooses the algorithm: it is coupled to the key type, and a key of any
/// other type is rejected.
pub fn signing_algorithm(key: &PrivateKey) -> (r: Result<AlgorithmIdentifier, Error>)
    ensures
        r is Ok <==> key_signing_algorithm(key@) is Some,
        r matches Ok(a) ==> a@ == key_signing_algorithm(key@).unwrap(),
        r is Err ==> r == Err::<AlgorithmIdentifier, Error>(Error::UnsupportedKeyError),
{
    if bytes_eq(key.algorithm_oid.as_slice(), oid_rsa_encryption_bytes().as_slice()) {
        Ok(AlgorithmIdentifier {
            oid: oid_sha256_with_rsa_bytes(),
            params: Option::Some(der_null_bytes()),
        })
    } else {
        let p256_params = match &key.parameters {
            Option::Some(p) => bytes_eq(p.as_slice(), p256_parameters_bytes().as_slice()),
            Option::None => false,
        };
        if bytes_eq(key.algorithm_oid.as_slice(), oid_ec_public_key_bytes().as_slice())
            && p256_params {
            Ok(AlgorithmIdentifier { oid: oid_ecdsa_sha256_bytes(), params: Option::None })
        } else {
            Err(Error::UnsupportedKeyError)
        }
    }
}

fn sign_with_key(key: &PrivateKey, msg: &Vec<u8>) -> (r: Option<Vec<u8>>)
    requires
        key_signing_algorithm(key@) is Some,
    ensures
        r is Some <==> key_signature(key@, msg@) is Some,
        r matches Some(v) ==> v@ == key_signature(key@, msg@).unwrap(),
{
    if bytes_eq(key.algorithm_oid.as_slice(), oid_rsa_encryption_bytes().as_slice()) {
        rsa_sign(&key.key_der, msg)
    } else {
        ecdsa_p256_sign(&key.key_der, msg)
    }
}

/// Builds the signed request from its three parts; the signature is carried
/// as a byte-aligned bit string.
pub fn assemble(
    payload: RequestInfoPayload,
    algorithm: AlgorithmIdentifier,
    signature: Vec<u8>,
) -> (r: SignedRequest)
    ensures
        r@ == assembled(payload@, algorithm@, signature@),
{
    SignedRequest {
        info: payload,
        algorithm,
        signature: SignatureBits { unused_bits: 0, bytes: signature },
    }
}

/// Verifies that a certification request is well formed and properly
/// self-signed, and on success hands back its payload.
///
/// The version is checked before any cryptographic work; the signature must
/// be byte-aligned; the payload is re-encoded canonically and the signature
/// checked against the public key embedded in the payload itself. Every
/// cryptographic failure surfaces as the one undifferentiated
/// `SignatureVerificationError`.
pub fn verify(request: SignedRequest) -> (r: Result<RequestInfoPayload, Error>)
    ensures
        r matches Ok(p) ==> verification_outcome(request@) == Ok::<RequestInfoPayloadView, Error>(
            p@,
        ),
        r matches Err(e) ==> verification_outcome(request@) == Err::<
            RequestInfoPayloadView,
            Error,
        >(e),
        request@.info.version != SUPPORTED_VERSION ==> r == Err::<RequestInfoPayload, Error>(
            Error::StructuralError(StructuralCause::UnsupportedVersion),
        ),
        request@.info.version == SUPPORTED_VERSION && request@.signature.unused_bits != 0 ==> r
            == Err::<RequestInfoPayload, Error>(
            Error::StructuralError(StructuralCause::InvalidSignatureEncoding),
        ),
        request@.info.version == SUPPORTED_VERSION && request@.signature.unused_bits == 0
            && !info_encodable(request@.info) ==> r == Err::<RequestInfoPayload, Error>(
            Error::EncodingError,
        ),
        request@.info.version == SUPPORTED_VERSION && request@.signature.unused_bits == 0
            && info_encodable(request@.info) ==> {
            &&& signature_accepted(
                request@.info.public_key,
                request@.algorithm,
                encoded_info(request@.info),
                request@.signature.bytes,
            ) ==> (r matches Ok(p) && p@ == request@.info)
            &&& !signature_accepted(
                request@.info.public_key,
                request@.algorithm,
                encoded_info(request@.info),
                request@.signature.bytes,
            ) ==> r == Err::<RequestInfoPayload, Error>(Error::SignatureVerificationError)
        },
{
    if request.info.version != SUPPORTED_VERSION {
        return Err(Error::StructuralError(StructuralCause::UnsupportedVersion));
    }
    if request.signature.unused_bits != 0 {
        return Err(Error::StructuralError(StructuralCause::InvalidSignatureEncoding));
    }
    let body = match encode_info(&request.info) {
        Ok(v) => v,
        Err(e) => {
            return Err(e);
        },
    };
    let accepted = check_signature(
        &request.info.public_key,
        &request.algorithm,
        &body,
        &request.signature.bytes,
    );
    if accepted {
        Ok(request.info)
    } else {
        Err(Error::SignatureVerificationError)
    }
}

/// Signs a request-info payload with the private key and returns the final
/// wire bytes of the signed request.
///
/// The algorithm is always derived from the key itself, never supplied by
/// the caller, so the declared algorithm can never disagree with the key
/// type. The signature covers exactly the canonical encoding of the payload,
/// and the payload is carried unchanged into the result.
pub fn sign(payload: RequestInfoPayload, key: &PrivateKey) -> (r: Result<Vec<u8>, Error>)
    ensures
        key_signing_algorithm(key@) is None ==> r == Err::<Vec<u8>, Error>(
            Error::UnsupportedKeyError,
        ),
        key_signing_algorithm(key@) is Some && !info_encodable(payload@) ==> r == Err::<
            Vec<u8>,
            Error,
        >(Error::EncodingError),
        key_signing_algorithm(key@) is Some && info_encodable(payload@) && key_signature(
            key@,
            encoded_info(payload@),
        ) is None ==> r == Err::<Vec<u8>, Error>(Error::SigningError),
        key_signing_algorithm(key@) is Some && info_encodable(payload@) && key_signature(
            key@,
            encoded_info(payload@),
        ) is Some ==> ({
            let req = assembled(
                payload@,
                key_signing_algorithm(key@).unwrap(),
                key_signature(key@, encoded_info(payload@)).unwrap(),
            );
            &&& request_encodable(req) ==> (r matches Ok(v) && v@ == encoded_request(req))
            &&& !request_encodable(req) ==> r == Err::<Vec<u8>, Error>(Error::EncodingError)
        }),
{
    let algorithm = match signing_algorithm(key) {
        Ok(a) => a,
        Err(e) => {
            return Err(e);
        },
    };
    let body = match encode_info(&payload) {
        Ok(v) => v,
        Err(e) => {
            return Err(e);
        },
    };
    let signature = match sign_with_key(key, &body) {
        Option::Some(s) => s,
        Option::None => {
            return Err(Error::SigningError);
        },
    };
    let request = assemble(payload, algorithm, signature);
    encode_request(&request)
}

} // verus!
