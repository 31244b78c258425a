use certreq::codec::encode_info;
use certreq::codec::encode_request;
use certreq::request::assemble;
use certreq::request::sign;
use certreq::request::signing_algorithm;
use certreq::request::verify;
use certreq::types::AlgorithmIdentifier;
use certreq::types::Error;
use certreq::types::PrivateKey;
use certreq::types::RequestInfoPayload;
use certreq::types::SignatureBits;
use certreq::types::SignedRequest;
use certreq::types::StructuralCause;

use der::Decode;
use der::Encode;
use p256::pkcs8::EncodePrivateKey;
use p256::pkcs8::EncodePublicKey;
use rsa::pkcs8::DecodePrivateKey;
use rsa::signature::SignatureEncoding;
use rsa::signature::Signer;

// A fixed RSA-2048 test key pair (PKCS#8 private key and its
// SubjectPublicKeyInfo), plus the public half of an unrelated second pair.
const RSA1_KEY_DER_HEX: &[&str] = &[
    "308204bc020100300d06092a864886f70d0101010500048204a6308204a20201000282010100",
    "bc3de9b6ccaeb2e1e9a4316a02cd545914fdb9d2e9b41dacd64dcac9f418539685ac12a2700f",
    "5eef7a0a546d2e08227b6e7fb3e698b2e8ebd83912f0ad32da4f35a9cfe4a2a1f057211ff952",
    "4604c29338de066440de3e245a331a1a8d27ef8b5f1eccf3a8140a7506490a739d04120ebdad",
    "b1d30d74e178c8c4a23ad5f8fc31caef64a122cdda6e0215babaa8bd448df5b3647bda8c406e",
    "1e77ad8c68b237e7e7c7b0dda8cf0bffbe02ebcc2723b212c397167cd874fdd0bd6469daacae",
    "8fea820b1e4b9677ee2353cfaf6249e1b05065f21f0efe930a5cc7440587d3a60dc37f6b5aab",
    "d8d1d953d185fc291d33cab902906540d81b9599fc8c15a2d26ff63b0203010001028201000a",
    "c0feb912b8683fbfb941996ccf8e2208b0f60cb68d33a4cc19659c63f57fd0f991fafe8ca854",
    "241a34bcddffe33715161af58c16ed21a15798eb1c14c8f2efd380ffff6fcb108fe9b489e9c9",
    "563c476cd8424537ef7a5d5949d213f23c75d2e07c41f92980fb97f3e3f854e28379049e916d",
    "b740ed8c73fa0441c05ab8feaf407236069c06182ad6c97fd48d70eb83ab698897b4eb8d86fd",
    "bf5b530e8b6e3c9d679bd0d853510aa82bde6cdbf3a988fc756ce70c15f56b5a8ee0759ff48c",
    "bd093f2f4f115db5212931d2675f2e2bb15ef69e35c2c4e678e46c0a35642f97c2a57e7a572f",
    "8a80f03a045f44c1f875e3a58aa0dc3600bf3c95f1b7e7cfcbd60102818100e03a75c7147a46",
    "7eeb59aa5434456b7307869c794d3193e7195996e435b9157290a98c810224207e98df63ec82",
    "99c56e2c51b0292e170eda1d7f7164739f8f314c4a360b942372330be4fbde64f67dd5a9cd70",
    "f4b16bb9ac1689883f639957c80ccb1121c3ce2c32c12b683a6a22fe1dda8aeefa3ddf4175fa",
    "b29e7eb702bd3902818100d6ea18ea537994f6d183d114971a3e88f3d61481a0d2d9354ab359",
    "3a1f62615c79d66684d8b53839676d790df9d621628a40623122e9dd5e8ec8dde5c8c5ee0449",
    "b449bcae4fa9f6f5a95c75904cea4e3ee10b577fd7ea00e7179310c0aa86c94f8a6b111085d4",
    "dfc48d5c9b782dccdf4c3de9c6221a0e4e51d42470296643130281804c7542b1e696a73121f9",
    "4a2e3a40ad99e4a80ef501d074f96958762e4cef5693e1261f45e240056085aa2ebd77ef0d36",
    "3b2083ac170e3fbf3a2db9b1a20777613cfd551e6f9e0293cb6b8242dc347cc5fd87930bacef",
    "e9b8f75a603e152d35947e6043f03a7f33ecfe97598c09a2f2f9a50a98e075768a30bb926a9f",
    "14b2776902818049234bad5b111247d8cf5234fea338cae4a8633c261dfb3b6e9b906efe453d",
    "baf9dfa3edebcde83f68da518b170def3898b2067890582434ccc4c0f735175ec3e8cd4916c3",
    "ff6a6917fb35f2f053ac9d4a3acde04e2a8d811723e7b198cfafa50cc39f62244c57407ba45b",
    "f2b0b86d7344800171a32358e1006a00a886fe3d2f02818049ffc022ef157619d14d9f1e065b",
    "fdad6e2b75924b485d8f44cab2ea916de57b38849f5ecf36315cfd1ffb66ce844b97a55323ee",
    "5927e26600175227fb50d8ad6d2b0ed47702845dfeaef2cc5fe4a6ddbbf9cedad76fc126eda0",
    "83a62ff17ca1f9cf43e3dcd450de3d5e1a01ac42be31f3c36bf806700d07f62bd878c6f8f992",
];

const RSA1_SPKI_HEX: &[&str] = &[
    "30820122300d06092a864886f70d01010105000382010f003082010a0282010100bc3de9b6cc",
    "aeb2e1e9a4316a02cd545914fdb9d2e9b41dacd64dcac9f418539685ac12a2700f5eef7a0a54",
    "6d2e08227b6e7fb3e698b2e8ebd83912f0ad32da4f35a9cfe4a2a1f057211ff9524604c29338",
    "de066440de3e245a331a1a8d27ef8b5f1eccf3a8140a7506490a739d04120ebdadb1d30d74e1",
    "78c8c4a23ad5f8fc31caef64a122cdda6e0215babaa8bd448df5b3647bda8c406e1e77ad8c68",
    "b237e7e7c7b0dda8cf0bffbe02ebcc2723b212c397167cd874fdd0bd6469daacae8fea820b1e",
    "4b9677ee2353cfaf6249e1b05065f21f0efe930a5cc7440587d3a60dc37f6b5aabd8d1d953d1",
    "85fc291d33cab902906540d81b9599fc8c15a2d26ff63b0203010001",
];

const RSA2_SPKI_HEX: &[&str] = &[
    "30820122300d06092a864886f70d01010105000382010f003082010a0282010100a069fbbf58",
    "a02c04a189a8dc265af886df71ba63b8705d545e04f241818af9eb5b872cca5fb5b918842af7",
    "40bbf89bd30381c2f28c6ae057b171a74578e8b6ef4d71f1f04a6981f4617f70b1964d7ef669",
    "380cddcea22e35f97a74e2a962bdc99ca9402dcfc9f25e1169be5df6eb7a2ac568ec1017d2de",
    "eaea85adc37ace0c00c155819f51e829afea1bdc06b3c8f0e9e0746d2b6bfbb913d5e5375ceb",
    "eb545644dd98a05f8e8f145dc2658e45baad7cc8ce17be2aeff48bd2483b580db0722019c2af",
    "afbf397de281aac2cd08bba6ed720a09e88b3c6dd9c32f0ab69011c8776350920f099679a4ba",
    "dea4a056042ce7837c4585931197759dd9381a9cc69cd70203010001",
];

fn hex_to_bytes(parts: &[&str]) -> Vec<u8> {
    let joined: String = parts.concat();
    let chars: Vec<u8> = joined.bytes().collect();
    let mut out = Vec::new();
    let mut i = 0;
    while i + 1 < chars.len() {
        let hi = (chars[i] as char).to_digit(16).unwrap() as u8;
        let lo = (chars[i + 1] as char).to_digit(16).unwrap() as u8;
        out.push(hi * 16 + lo);
        i += 2;
    }
    out
}

const OID_RSA_ENCRYPTION: [u8; 9] = [0x2A, 0x86, 0x48, 0x86, 0xF7, 0x0D, 0x01, 0x01, 0x01];
const OID_SHA256_WITH_RSA: [u8; 9] = [0x2A, 0x86, 0x48, 0x86, 0xF7, 0x0D, 0x01, 0x01, 0x0B];
const OID_EC_PUBLIC_KEY: [u8; 7] = [0x2A, 0x86, 0x48, 0xCE, 0x3D, 0x02, 0x01];
const OID_ECDSA_SHA256: [u8; 8] = [0x2A, 0x86, 0x48, 0xCE, 0x3D, 0x04, 0x03, 0x02];
const P256_PARAMS: [u8; 10] = [0x06, 0x08, 0x2A, 0x86, 0x48, 0xCE, 0x3D, 0x03, 0x01, 0x07];

fn rsa_test_key() -> PrivateKey {
    PrivateKey {
        algorithm_oid: OID_RSA_ENCRYPTION.to_vec(),
        parameters: None,
        key_der: hex_to_bytes(RSA1_KEY_DER_HEX),
    }
}

fn payload_with_key(spki: Vec<u8>) -> RequestInfoPayload {
    RequestInfoPayload {
        version: 0,
        subject: vec![0x30, 0x00],
        public_key: spki,
        attributes: vec![0xA0, 0x00],
    }
}

fn p256_test_key() -> (PrivateKey, Vec<u8>) {
    let sk = p256::ecdsa::SigningKey::random(&mut rand::rngs::OsRng);
    let key_der = sk.to_pkcs8_der().unwrap().as_bytes().to_vec();
    let spki = sk.verifying_key().to_public_key_der().unwrap().as_bytes().to_vec();
    let key = PrivateKey {
        algorithm_oid: OID_EC_PUBLIC_KEY.to_vec(),
        parameters: Some(P256_PARAMS.to_vec()),
        key_der,
    };
    (key, spki)
}

fn p256_signature(key: &PrivateKey, msg: &[u8]) -> Vec<u8> {
    let sk = p256::ecdsa::SigningKey::from_pkcs8_der(&key.key_der).unwrap();
    let sig: p256::ecdsa::Signature = sk.sign(msg);
    sig.to_der().to_vec()
}

#[test]
fn rsa_sign_then_verify_succeeds() {
    let key = rsa_test_key();
    let payload = payload_with_key(hex_to_bytes(RSA1_SPKI_HEX));
    let out = sign(payload.clone(), &key).unwrap();

    // Reconstruct the parts: PKCS#1 v1.5 signing is deterministic, so the
    // signature can be recomputed, and the assembled request must encode to
    // exactly the signer's output.
    let body = encode_info(&payload).unwrap();
    let rk = rsa::RsaPrivateKey::from_pkcs8_der(&key.key_der).unwrap();
    let sk = rsa::pkcs1v15::SigningKey::<sha2::Sha256>::new(rk);
    let sig = sk.sign(&body).to_vec();
    let algorithm = signing_algorithm(&key).unwrap();
    assert_eq!(algorithm.oid, OID_SHA256_WITH_RSA.to_vec());
    assert_eq!(algorithm.params, Some(vec![0x05, 0x00]));
    let request = assemble(payload.clone(), algorithm, sig);
    assert_eq!(encode_request(&request).unwrap(), out);

    let verified = verify(request).unwrap();
    assert_eq!(verified, payload);
}

#[test]
fn rsa_signed_request_parses_with_der_codec() {
    let key = rsa_test_key();
    let payload = payload_with_key(hex_to_bytes(RSA1_SPKI_HEX));
    let body = encode_info(&payload).unwrap();
    let out = sign(payload, &key).unwrap();

    let req = x509_cert::request::CertReq::from_der(&out).unwrap();
    assert_eq!(req.info.version, x509_cert::request::Version::V1);
    assert_eq!(req.algorithm.oid.as_bytes(), &OID_SHA256_WITH_RSA);
    let params = req.algorithm.parameters.as_ref().unwrap();
    assert_eq!(params.to_der().unwrap(), vec![0x05, 0x00]);
    assert_eq!(req.info.to_der().unwrap(), body);
    // The reference codec re-encodes the whole request to the same bytes.
    assert_eq!(req.to_der().unwrap(), out);
}

#[test]
fn p256_sign_then_verify_succeeds() {
    let (key, spki) = p256_test_key();
    let payload = payload_with_key(spki);
    let out = sign(payload.clone(), &key).unwrap();

    let req = x509_cert::request::CertReq::from_der(&out).unwrap();
    assert_eq!(req.algorithm.oid.as_bytes(), &OID_ECDSA_SHA256);
    assert!(req.algorithm.parameters.is_none());
    let algorithm = AlgorithmIdentifier {
        oid: req.algorithm.oid.as_bytes().to_vec(),
        params: None,
    };
    let signature = SignatureBits {
        unused_bits: 0,
        bytes: req.signature.raw_bytes().to_vec(),
    };
    let request = SignedRequest { info: payload.clone(), algorithm, signature };
    let verified = verify(request).unwrap();
    assert_eq!(verified, payload);
}

#[test]
fn swapped_public_key_fails_verification() {
    // The verification key comes from inside the payload. A payload that
    // embeds an unrelated public key must fail even though the signature was
    // validly produced by the signing key.
    let key = rsa_test_key();
    let payload = payload_with_key(hex_to_bytes(RSA2_SPKI_HEX));
    let body = encode_info(&payload).unwrap();
    let rk = rsa::RsaPrivateKey::from_pkcs8_der(&key.key_der).unwrap();
    let sk = rsa::pkcs1v15::SigningKey::<sha2::Sha256>::new(rk);
    let sig = sk.sign(&body).to_vec();
    let algorithm = signing_algorithm(&key).unwrap();
    let request = assemble(payload, algorithm, sig);
    assert_eq!(verify(request), Err(Error::SignatureVerificationError));
}

#[test]
fn version_is_enforced_before_any_cryptographic_check() {
    // Garbage algorithm and signature: with a wrong version the verifier must
    // reject structurally, never reaching the cryptographic check.
    let mut payload = payload_with_key(hex_to_bytes(RSA1_SPKI_HEX));
    payload.version = 1;
    let request = SignedRequest {
        info: payload,
        algorithm: AlgorithmIdentifier { oid: vec![], params: None },
        signature: SignatureBits { unused_bits: 7, bytes: vec![] },
    };
    assert_eq!(
        verify(request),
        Err(Error::StructuralError(StructuralCause::UnsupportedVersion))
    );
}

#[test]
fn unaligned_signature_bit_string_is_rejected() {
    let (key, spki) = p256_test_key();
    let payload = payload_with_key(spki);
    let body = encode_info(&payload).unwrap();
    let sig = p256_signature(&key, &body);
    let algorithm = signing_algorithm(&key).unwrap();
    let request = SignedRequest {
        info: payload,
        algorithm,
        signature: SignatureBits { unused_bits: 3, bytes: sig },
    };
    assert_eq!(
        verify(request),
        Err(Error::StructuralError(StructuralCause::InvalidSignatureEncoding))
    );
}

#[test]
fn unknown_key_type_is_unsupported() {
    let key = PrivateKey {
        // id-Ed25519; no signing-algorithm mapping exists for it here.
        algorithm_oid: vec![0x2B, 0x65, 0x70],
        parameters: None,
        key_der: vec![],
    };
    assert_eq!(signing_algorithm(&key), Err(Error::UnsupportedKeyError));
    let payload = payload_with_key(vec![0x30, 0x00]);
    assert_eq!(sign(payload, &key), Err(Error::UnsupportedKeyError));
}

#[test]
fn ec_key_with_other_curve_is_unsupported() {
    let key = PrivateKey {
        algorithm_oid: OID_EC_PUBLIC_KEY.to_vec(),
        // secp384r1, not prime256v1.
        parameters: Some(vec![0x06, 0x05, 0x2B, 0x81, 0x04, 0x00, 0x22]),
        key_der: vec![],
    };
    assert_eq!(signing_algorithm(&key), Err(Error::UnsupportedKeyError));
}

#[test]
fn broken_key_document_gives_signing_error() {
    let key = PrivateKey {
        algorithm_oid: OID_RSA_ENCRYPTION.to_vec(),
        parameters: None,
        key_der: vec![0xDE, 0xAD, 0xBE, 0xEF],
    };
    let payload = payload_with_key(vec![0x30, 0x00]);
    assert_eq!(sign(payload, &key), Err(Error::SigningError));
}

#[test]
fn tampered_payload_bits_never_verify() {
    let (key, spki) = p256_test_key();
    let payload = payload_with_key(spki);
    let body = encode_info(&payload).unwrap();
    let sig = p256_signature(&key, &body);
    let algorithm = signing_algorithm(&key).unwrap();

    // The untampered request verifies.
    let request = assemble(payload.clone(), algorithm.clone(), sig.clone());
    assert_eq!(verify(request).unwrap(), payload);

    let mut bit = 0;
    while bit < body.len() * 8 {
        let mut tampered = body.clone();
        tampered[bit / 8] ^= 1 << (bit % 8);
        match certreq::codec::decode_info(&tampered) {
            Err(e) => {
                assert_eq!(e, Error::StructuralError(StructuralCause::MalformedEncoding));
            }
            Ok(changed) => {
                assert_ne!(changed, payload);
                let req = assemble(changed, algorithm.clone(), sig.clone());
                assert!(verify(req).is_err());
            }
        }
        bit += 5;
    }
}

#[test]
fn tampered_algorithm_or_signature_never_verifies() {
    let (key, spki) = p256_test_key();
    let payload = payload_with_key(spki);
    let body = encode_info(&payload).unwrap();
    let sig = p256_signature(&key, &body);
    let algorithm = signing_algorithm(&key).unwrap();

    for bit in 0..algorithm.oid.len() * 8 {
        let mut alg = algorithm.clone();
        alg.oid[bit / 8] ^= 1 << (bit % 8);
        let req = assemble(payload.clone(), alg, sig.clone());
        assert_eq!(verify(req), Err(Error::SignatureVerificationError));
    }

    let mut bit = 0;
    while bit < sig.len() * 8 {
        let mut s = sig.clone();
        s[bit / 8] ^= 1 << (bit % 8);
        let req = assemble(payload.clone(), algorithm.clone(), s);
        assert_eq!(verify(req), Err(Error::SignatureVerificationError));
        bit += 3;
    }
}
