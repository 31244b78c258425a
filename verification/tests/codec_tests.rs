use certreq::codec::decode_info;
use certreq::codec::encode_info;
use certreq::types::Error;
use certreq::types::RequestInfoPayload;
use certreq::types::StructuralCause;

fn sample_payload() -> RequestInfoPayload {
    RequestInfoPayload {
        version: 0,
        subject: vec![0x30, 0x03, 0x01, 0x02, 0x03],
        public_key: vec![0x30, 0x02, 0xAB, 0xCD],
        attributes: vec![0xA0, 0x01, 0x7F],
    }
}

#[test]
fn encode_info_exact_bytes() {
    let payload = RequestInfoPayload {
        version: 0,
        subject: vec![0x30, 0x00],
        public_key: vec![0x30, 0x00],
        attributes: vec![0xA0, 0x00],
    };
    let out = encode_info(&payload).unwrap();
    assert_eq!(out, vec![0x30, 0x09, 0x02, 0x01, 0x00, 0x30, 0x00, 0x30, 0x00, 0xA0, 0x00]);
}

#[test]
fn round_trip_structural_and_byte_equality() {
    let payload = sample_payload();
    let encoded = encode_info(&payload).unwrap();
    let decoded = decode_info(&encoded).unwrap();
    assert_eq!(decoded, payload);
    let re_encoded = encode_info(&decoded).unwrap();
    assert_eq!(re_encoded, encoded);
}

#[test]
fn round_trip_long_form_length() {
    // A payload long enough to need a two-byte length field.
    let payload = RequestInfoPayload {
        version: 0,
        subject: vec![0x30, 0x00],
        public_key: {
            let mut v = vec![0x30, 0x81, 0xC8];
            v.extend(std::iter::repeat(0x55u8).take(0xC8));
            v
        },
        attributes: vec![0xA0, 0x00],
    };
    let encoded = encode_info(&payload).unwrap();
    assert_eq!(encoded[1], 0x81);
    let decoded = decode_info(&encoded).unwrap();
    assert_eq!(decoded, payload);
    assert_eq!(encode_info(&decoded).unwrap(), encoded);
}

#[test]
fn decode_rejects_wrong_outer_tag() {
    let payload = sample_payload();
    let mut encoded = encode_info(&payload).unwrap();
    encoded[0] = 0x31;
    assert_eq!(
        decode_info(&encoded),
        Err(Error::StructuralError(StructuralCause::MalformedEncoding))
    );
}

#[test]
fn decode_rejects_truncated_input() {
    let payload = sample_payload();
    let mut encoded = encode_info(&payload).unwrap();
    encoded.pop();
    assert_eq!(
        decode_info(&encoded),
        Err(Error::StructuralError(StructuralCause::MalformedEncoding))
    );
}

#[test]
fn decode_rejects_trailing_bytes() {
    let payload = sample_payload();
    let mut encoded = encode_info(&payload).unwrap();
    encoded.push(0x00);
    assert_eq!(
        decode_info(&encoded),
        Err(Error::StructuralError(StructuralCause::MalformedEncoding))
    );
}

#[test]
fn decode_rejects_non_minimal_length() {
    // 30 81 09 ... : long-form length for a value under 0x80 is not minimal.
    let bytes = vec![
        0x30, 0x81, 0x09, 0x02, 0x01, 0x00, 0x30, 0x00, 0x30, 0x00, 0xA0, 0x00,
    ];
    assert_eq!(
        decode_info(&bytes),
        Err(Error::StructuralError(StructuralCause::MalformedEncoding))
    );
}

#[test]
fn decode_rejects_indefinite_length() {
    let bytes = vec![0x30, 0x80, 0x02, 0x01, 0x00, 0x00, 0x00];
    assert_eq!(
        decode_info(&bytes),
        Err(Error::StructuralError(StructuralCause::MalformedEncoding))
    );
}

#[test]
fn decode_rejects_bad_version_shape() {
    // Version INTEGER with a two-byte content is not the minimal v1 form.
    let bytes = vec![
        0x30, 0x0A, 0x02, 0x02, 0x00, 0x00, 0x30, 0x00, 0x30, 0x00, 0xA0, 0x00,
    ];
    assert_eq!(
        decode_info(&bytes),
        Err(Error::StructuralError(StructuralCause::MalformedEncoding))
    );
}

#[test]
fn decode_rejects_wrong_component_tag() {
    // Subject must be a SEQUENCE; a SET in its place is rejected.
    let bytes = vec![0x30, 0x09, 0x02, 0x01, 0x00, 0x31, 0x00, 0x30, 0x00, 0xA0, 0x00];
    assert_eq!(
        decode_info(&bytes),
        Err(Error::StructuralError(StructuralCause::MalformedEncoding))
    );
}

#[test]
fn decode_accepts_nonzero_version_payload() {
    // Structurally valid payloads with other version values decode; the
    // verifier, not the codec, enforces the supported version.
    let payload = RequestInfoPayload {
        version: 5,
        subject: vec![0x30, 0x00],
        public_key: vec![0x30, 0x00],
        attributes: vec![0xA0, 0x00],
    };
    let encoded = encode_info(&payload).unwrap();
    assert_eq!(decode_info(&encoded).unwrap(), payload);
}
