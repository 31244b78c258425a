//! The data model: certification-request records, key material, and the
//! closed error taxonomy.

use vstd::prelude::*;

verus! {

/// Why an input's shape was rejected, independent of any cryptographic check.
#[derive(Clone, Copy, Debug, PartialEq, Eq, Structural)]
pub enum StructuralCause {
    /// The payload's version is not the single supported version.
    UnsupportedVersion,
    /// The signature bit string is not byte-aligned.
    InvalidSignatureEncoding,
    /// Bytes do not form a well-shaped record.
    MalformedEncoding,
}

/// The closed error taxonomy. Every failure is fatal to the call; nothing is
/// retried and no partial result is ever returned.
#[derive(Clone, Copy, Debug, PartialEq, Eq, Structural)]
pub enum Error {
    /// Malformed input shape (wrong version, bad bit string, bad encoding).
    StructuralError(StructuralCause),
    /// Cryptographic verification failed. Deliberately undifferentiated: no
    /// sub-reason is exposed, so failure does not leak which check broke.
    SignatureVerificationError,
    /// The private key's type has no known signing-algorithm mapping.
    UnsupportedKeyError,
    /// The underlying signing primitive failed.
    SigningError,
    /// Canonical encoding failed (a content length out of range).
    EncodingError,
}

/// An algorithm identifier: an object identifier plus optional parameters,
/// both carried as already-encoded DER (the identifier as its content bytes,
/// the parameters as a complete element).
#[derive(Clone, Debug, PartialEq, Eq)]
pub struct AlgorithmIdentifier {
    /// Content bytes of the OBJECT IDENTIFIER (without tag and length).
    pub oid: Vec<u8>,
    /// Raw DER of the parameters element, if present.
    pub params: Option<Vec<u8>>,
}

pub ghost struct AlgorithmIdentifierView {
    pub oid: Seq<u8>,
    pub params: Option<Seq<u8>>,
}

impl View for AlgorithmIdentifier {
    type V = AlgorithmIdentifierView;

    open spec fn view(&self) -> AlgorithmIdentifierView {
        AlgorithmIdentifierView {
            oid: self.oid@,
            params: match self.params {
                Option::Some(p) => Option::Some(p@),
                Option::None => Option::None,
            },
        }
    }
}

/// A BIT STRING value: the signature as raw bytes plus the count of unused
/// trailing bits. A signature is usable only when it is byte-aligned
/// (`unused_bits == 0`).
#[derive(Clone, Debug, PartialEq, Eq)]
pub struct SignatureBits {
    pub unused_bits: u8,
    pub bytes: Vec<u8>,
}

pub ghost struct SignatureBitsView {
    pub unused_bits: u8,
    pub bytes: Seq<u8>,
}

impl View for SignatureBits {
    type V = SignatureBitsView;

    open spec fn view(&self) -> SignatureBitsView {
        SignatureBitsView { unused_bits: self.unused_bits, bytes: self.bytes@ }
    }
}

/// The part of a certification request that gets signed.
///
/// The subject name, subject public key info and attributes are opaque
/// passengers: complete DER elements copied through unmodified. Only the
/// version and the public key element are interpreted by this crate.
#[derive(Clone, Debug, PartialEq, Eq)]
pub struct RequestInfoPayload {
    /// Version number; the only value this format defines is 0 (v1).
    pub version: u8,
    /// Raw DER of the subject Name (a SEQUENCE).
    pub subject: Vec<u8>,
    /// Raw DER of the SubjectPublicKeyInfo (a SEQUENCE); doubles as the
    /// verification key for the self-signature.
    pub public_key: Vec<u8>,
    /// Raw DER of the attributes (a context-tagged set).
    pub attributes: Vec<u8>,
}

pub ghost struct RequestInfoPayloadView {
    pub version: u8,
    pub subject: Seq<u8>,
    pub public_key: Seq<u8>,
    pub attributes: Seq<u8>,
}

impl View for RequestInfoPayload {
    type V = RequestInfoPayloadView;

    open spec fn view(&self) -> RequestInfoPayloadView {
        RequestInfoPayloadView {
            version: self.version,
            subject: self.subject@,
            public_key: self.public_key@,
            attributes: self.attributes@,
        }
    }
}

/// A signed certification request: payload, algorithm identifier, and a
/// signature over the canonical encoding of the payload.
#[derive(Clone, Debug, PartialEq, Eq)]
pub struct SignedRequest {
    pub info: RequestInfoPayload,
    pub algorithm: AlgorithmIdentifier,
    pub signature: SignatureBits,
}

pub ghost struct SignedRequestView {
    pub info: RequestInfoPayloadView,
    pub algorithm: AlgorithmIdentifierView,
    pub signature: SignatureBitsView,
}

impl View for SignedRequest {
    type V = SignedRequestView;

    open spec fn view(&self) -> SignedRequestView {
        SignedRequestView {
            info: self.info@,
            algorithm: self.algorithm@,
            signature: self.signature@,
        }
    }
}

/// A private key, modelled as the fields this crate reads plus the encoded
/// key document that the signing primitives consume.
///
/// `algorithm_oid` and `parameters` mirror the algorithm identifier of the
/// key's PKCS#8 document; `key_der` is that whole document.
#[derive(Clone, Debug, PartialEq, Eq)]
pub struct PrivateKey {
    /// Content bytes of the key algorithm's OBJECT IDENTIFIER.
    pub algorithm_oid: Vec<u8>,
    /// Raw DER of the key algorithm's parameters element, if present.
    pub parameters: Option<Vec<u8>>,
    /// The complete PKCS#8 private-key document.
    pub key_der: Vec<u8>,
}

pub ghost struct PrivateKeyView {
    pub algorithm_oid: Seq<u8>,
    pub parameters: Option<Seq<u8>>,
    pub key_der: Seq<u8>,
}

impl View for PrivateKey {
    type V = PrivateKeyView;

    open spec fn view(&self) -> PrivateKeyView {
        PrivateKeyView {
            algorithm_oid: self.algorithm_oid@,
            parameters: match self.parameters {
                Option::Some(p) => Option::Some(p@),
                Option::None => Option::None,
            },
            key_der: self.key_der@,
        }
    }
}

} // verus!
