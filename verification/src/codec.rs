//! Canonical DER framing for certification requests.
//!
//! The payload's subject, public-key and attribute fields are carried as
//! opaque, already-encoded DER elements; this module frames them (and the
//! outer structures around them) as tag-length-value elements with minimal
//! definite lengths, and parses such frames back.

use vstd::arithmetic::div_mod::*;
use vstd::prelude::*;

use crate::types::AlgorithmIdentifier;
use crate::types::AlgorithmIdentifierView;
use crate::types::Error;
use crate::types::RequestInfoPayload;
use crate::types::RequestInfoPayloadView;
use crate::types::SignatureBitsView;
use crate::types::SignedRequest;
use crate::types::SignedRequestView;
use crate::types::StructuralCause;

verus! {

/// Largest content length this codec frames: DER long-form lengths of up to
/// four bytes.
pub open spec fn fits_der_length(n: nat) -> bool {
    n < 0x1_0000_0000
}

/// The minimal definite-length DER encoding of a content length.
pub open spec fn len_bytes(n: nat) -> Seq<u8> {
    if n < 0x80 {
        seq![n as u8]
    } else if n < 0x100 {
        seq![0x81u8, n as u8]
    } else if n < 0x1_0000 {
        seq![0x82u8, (n / 0x100) as u8, (n % 0x100) as u8]
    } else if n < 0x100_0000 {
        seq![0x83u8, (n / 0x1_0000) as u8, ((n / 0x100) % 0x100) as u8, (n % 0x100) as u8]
    } else if n < 0x1_0000_0000 {
        seq![
            0x84u8,
            (n / 0x100_0000) as u8,
            ((n / 0x1_0000) % 0x100) as u8,
            ((n / 0x100) % 0x100) as u8,
            (n % 0x100) as u8,
        ]
    } else {
        Seq::empty()
    }
}

/// One DER element: tag, minimal length, content.
pub open spec fn tlv(tag: u8, content: Seq<u8>) -> Seq<u8> {
    seq![tag] + len_bytes(content.len()) + content
}

/// Appends the minimal DER length encoding of `n` to `out`.
pub fn encode_der_length(out: &mut Vec<u8>, n: usize)
    requires
        fits_der_length(n as nat),
    ensures
        final(out)@ == old(out)@ + len_bytes(n as nat),
{
    if n < 0x80 {
        out.push(n as u8);
    } else if n < 0x100 {
        out.push(0x81u8);
        out.push(n as u8);
    } else if n < 0x1_0000 {
        out.push(0x82u8);
        out.push((n / 0x100) as u8);
        out.push((n % 0x100) as u8);
    } else if n < 0x100_0000 {
        out.push(0x83u8);
        out.push((n / 0x1_0000) as u8);
        out.push(((n / 0x100) % 0x100) as u8);
        out.push((n % 0x100) as u8);
    } else {
        out.push(0x84u8);
        out.push((n / 0x100_0000) as u8);
        out.push(((n / 0x1_0000) % 0x100) as u8);
        out.push(((n / 0x100) % 0x100) as u8);
        out.push((n % 0x100) as u8);
    }
    assert(out@ =~= old(out)@ + len_bytes(n as nat));
}

/// Appends all of `src` to `out`.
pub fn push_all(out: &mut Vec<u8>, src: &[u8])
    ensures
        final(out)@ == old(out)@ + src@,
{
    let mut i: usize = 0;
    while i < src.len()
        invariant
            i <= src.len(),
            out@ == old(out)@ + src@.subrange(0, i as int),
        decreases src.len() - i,
    {
        out.push(src[i]);
        i = i + 1;
        assert(out@ =~= old(out)@ + src@.subrange(0, i as int));
    }
    assert(out@ =~= old(out)@ + src@);
}

/// Copies `b[from..to]` into a fresh vector.
pub fn copy_range(b: &Vec<u8>, from: usize, to: usize) -> (r: Vec<u8>)
    requires
        from <= to <= b@.len(),
    ensures
        r@ == b@.subrange(from as int, to as int),
{
    let mut out: Vec<u8> = Vec::new();
    let mut i: usize = from;
    while i < to
        invariant
            from <= i <= to <= b@.len(),
            out@ == b@.subrange(from as int, i as int),
        decreases to - i,
    {
        out.push(b[i]);
        i = i + 1;
        assert(out@ =~= b@.subrange(from as int, i as int));
    }
    out
}

/// Byte-for-byte equality of two slices.
pub fn bytes_eq(a: &[u8], b: &[u8]) -> (r: bool)
    ensures
        r <==> a@ == b@,
{
    if a.len() != b.len() {
        return false;
    }
    let mut i: usize = 0;
    while i < a.len()
        invariant
            i <= a.len(),
            a@.len() == b@.len(),
            forall|j: int| 0 <= j < i ==> a@[j] == b@[j],
        decreases a.len() - i,
    {
        if a[i] != b[i] {
            return false;
        }
        i = i + 1;
    }
    assert(a@ =~= b@);
    true
}

/// `b` is one complete DER element with tag `tag`.
pub open spec fn is_element(b: Seq<u8>, tag: u8) -> bool {
    exists|c: Seq<u8>| fits_der_length(c.len()) && b == #[trigger] tlv(tag, c)
}

/// The DER encoding of the version number as an INTEGER.
pub open spec fn version_bytes(v: u8) -> Seq<u8> {
    seq![0x02u8, 0x01u8, v]
}

/// Content of the request-info SEQUENCE: version, then the opaque subject,
/// public-key and attribute elements, in order.
pub open spec fn info_content(p: RequestInfoPayloadView) -> Seq<u8> {
    version_bytes(p.version) + p.subject + p.public_key + p.attributes
}

/// The canonical encoding of a request-info payload: the byte sequence that
/// is signed.
pub open spec fn encoded_info(p: RequestInfoPayloadView) -> Seq<u8> {
    tlv(0x30, info_content(p))
}

/// A payload whose canonical encoding exists (its content length is in range).
pub open spec fn info_encodable(p: RequestInfoPayloadView) -> bool {
    fits_der_length(info_content(p).len())
}

/// A payload that decoding can produce: minimal version form, each passenger
/// a complete element of the expected tag, and encodable.
pub open spec fn wf_payload(p: RequestInfoPayloadView) -> bool {
    &&& p.version < 0x80
    &&& is_element(p.subject, 0x30)
    &&& is_element(p.public_key, 0x30)
    &&& is_element(p.attributes, 0xA0)
    &&& info_encodable(p)
}

/// Content of the algorithm-identifier SEQUENCE: the OBJECT IDENTIFIER
/// element, then the raw parameters if present.
pub open spec fn algorithm_content(a: AlgorithmIdentifierView) -> Seq<u8> {
    tlv(0x06, a.oid) + (match a.params {
        Option::Some(b) => b,
        Option::None => Seq::empty(),
    })
}

/// The canonical encoding of an algorithm identifier.
pub open spec fn encoded_algorithm(a: AlgorithmIdentifierView) -> Seq<u8> {
    tlv(0x30, algorithm_content(a))
}

pub open spec fn algorithm_encodable(a: AlgorithmIdentifierView) -> bool {
    fits_der_length(a.oid.len()) && fits_der_length(algorithm_content(a).len())
}

/// Content of the signature BIT STRING: the unused-bit count, then the bytes.
pub open spec fn signature_content(s: SignatureBitsView) -> Seq<u8> {
    seq![s.unused_bits] + s.bytes
}

/// The canonical encoding of the signature bit string.
pub open spec fn encoded_signature(s: SignatureBitsView) -> Seq<u8> {
    tlv(0x03, signature_content(s))
}

pub open spec fn signature_encodable(s: SignatureBitsView) -> bool {
    fits_der_length(signature_content(s).len())
}

/// Content of the outer signed-request SEQUENCE.
pub open spec fn request_content(r: SignedRequestView) -> Seq<u8> {
    encoded_info(r.info) + encoded_algorithm(r.algorithm) + encoded_signature(r.signature)
}

/// The canonical encoding of a whole signed request: the final wire bytes.
pub open spec fn encoded_request(r: SignedRequestView) -> Seq<u8> {
    tlv(0x30, request_content(r))
}

pub open spec fn request_encodable(r: SignedRequestView) -> bool {
    &&& info_encodable(r.info)
    &&& algorithm_encodable(r.algorithm)
    &&& signature_encodable(r.signature)
    &&& fits_der_length(request_content(r).len())
}

/// How a minimal DER length encoding is recognised from its first byte: the
/// byte fixes the form and the remaining bytes reconstruct the value.
pub proof fn lemma_len_bytes_shape(n: nat)
    requires
        fits_der_length(n),
    ensures
        1 <= len_bytes(n).len() <= 5,
        len_bytes(n)[0] < 0x80 ==> len_bytes(n).len() == 1 && n == len_bytes(n)[0],
        len_bytes(n)[0] == 0x81 ==> len_bytes(n).len() == 2 && n == len_bytes(n)[1] && n >= 0x80,
        len_bytes(n)[0] == 0x82 ==> len_bytes(n).len() == 3 && n == len_bytes(n)[1] * 0x100
            + len_bytes(n)[2] && n >= 0x100,
        len_bytes(n)[0] == 0x83 ==> len_bytes(n).len() == 4 && n == len_bytes(n)[1] * 0x1_0000
            + len_bytes(n)[2] * 0x100 + len_bytes(n)[3] && n >= 0x1_0000,
        len_bytes(n)[0] == 0x84 ==> len_bytes(n).len() == 5 && n == len_bytes(n)[1] * 0x100_0000
            + len_bytes(n)[2] * 0x1_0000 + len_bytes(n)[3] * 0x100 + len_bytes(n)[4] && n
            >= 0x100_0000,
        len_bytes(n)[0] < 0x80 || 0x81 <= len_bytes(n)[0] <= 0x84,
{
    if n < 0x80 {
    } else if n < 0x100 {
    } else if n < 0x1_0000 {
        lemma_fundamental_div_mod(n as int, 0x100);
        lemma_div_nonincreasing(n as int, 0x100);
        assert(n / 0x100 < 0x100) by (nonlinear_arith)
            requires
                n < 0x1_0000,
        ;
    } else if n < 0x100_0000 {
        lemma_fundamental_div_mod(n as int, 0x100);
        lemma_fundamental_div_mod(n as int / 0x100, 0x100);
        lemma_div_denominator(n as int, 0x100, 0x100);
        assert(n / 0x1_0000 < 0x100) by (nonlinear_arith)
            requires
                n < 0x100_0000,
        ;
        assert(n as int / 0x100 / 0x100 == n as int / 0x1_0000);
        assert(n == (n / 0x1_0000) * 0x1_0000 + ((n / 0x100) % 0x100) * 0x100 + n % 0x100)
            by (nonlinear_arith)
            requires
                n as int == 0x100 * (n as int / 0x100) + n as int % 0x100,
                n as int / 0x100 == 0x100 * (n as int / 0x100 / 0x100) + (n as int / 0x100)
                    % 0x100,
                n as int / 0x100 / 0x100 == n as int / 0x1_0000,
        ;
        assert(n / 0x1_0000 >= 1);
    } else {
        lemma_fundamental_div_mod(n as int, 0x100);
        lemma_fundamental_div_mod(n as int / 0x100, 0x100);
        lemma_fundamental_div_mod(n as int / 0x1_0000, 0x100);
        lemma_div_denominator(n as int, 0x100, 0x100);
        lemma_div_denominator(n as int, 0x1_0000, 0x100);
        assert(n / 0x100_0000 < 0x100) by (nonlinear_arith)
            requires
                n < 0x1_0000_0000,
        ;
        assert(n as int / 0x100 / 0x100 == n as int / 0x1_0000);
        assert(n as int / 0x1_0000 / 0x100 == n as int / 0x100_0000);
        assert(n == (n / 0x100_0000) * 0x100_0000 + ((n / 0x1_0000) % 0x100) * 0x1_0000 + ((n
            / 0x100) % 0x100) * 0x100 + n % 0x100) by (nonlinear_arith)
            requires
                n as int == 0x100 * (n as int / 0x100) + n as int % 0x100,
                n as int / 0x100 == 0x100 * (n as int / 0x100 / 0x100) + (n as int / 0x100)
                    % 0x100,
                n as int / 0x1_0000 == 0x100 * (n as int / 0x1_0000 / 0x100) + (n as int
                    / 0x1_0000) % 0x100,
                n as int / 0x100 / 0x100 == n as int / 0x1_0000,
                n as int / 0x1_0000 / 0x100 == n as int / 0x100_0000,
        ;
        assert(n / 0x100_0000 >= 1);
    }
}

/// Minimal DER length encodings are injective.
pub proof fn lemma_len_bytes_injective(n1: nat, n2: nat)
    requires
        fits_der_length(n1),
        fits_der_length(n2),
        len_bytes(n1) == len_bytes(n2),
    ensures
        n1 == n2,
{
    lemma_len_bytes_shape(n1);
    lemma_len_bytes_shape(n2);
}

/// Reads a minimal DER length at position `i`. Exactly the byte ranges that
/// `len_bytes` produces are accepted: a non-minimal, indefinite or over-long
/// length form is rejected.
#[verifier::rlimit(100)]
#[verifier::spinoff_prover]
pub fn parse_der_length(b: &Vec<u8>, i: usize) -> (r: Result<(usize, usize), Error>)
    requires
        i <= b@.len(),
    ensures
        r matches Ok(v) ==> ({
            &&& fits_der_length(v.0 as nat)
            &&& i < v.1 <= b@.len()
            &&& v.1 - i == len_bytes(v.0 as nat).len()
            &&& b@.subrange(i as int, v.1 as int) == len_bytes(v.0 as nat)
        }),
        forall|m: nat|
            (fits_der_length(m) && i + #[trigger] len_bytes(m).len() <= b@.len() && b@.subrange(
                i as int,
                i + len_bytes(m).len(),
            ) == len_bytes(m)) ==> (r matches Ok(v) && v.0 == m),
        r is Err ==> r == Err::<(usize, usize), Error>(
            Error::StructuralError(StructuralCause::MalformedEncoding),
        ),
{
    let ghost gb = b@;
    if b.len() - i < 1 {
        assert forall|m: nat|
            (fits_der_length(m) && i + #[trigger] len_bytes(m).len() <= gb.len() && gb.subrange(
                i as int,
                i + len_bytes(m).len(),
            ) == len_bytes(m)) implies false by {
            lemma_len_bytes_shape(m);
        }
        return Err(Error::StructuralError(StructuralCause::MalformedEncoding));
    }
    let first = b[i];
    if first < 0x80 {
        let v = (first as usize, i + 1);
        assert(gb.subrange(i as int, i + 1) =~= len_bytes(first as nat));
        assert forall|m: nat|
            (fits_der_length(m) && i + #[trigger] len_bytes(m).len() <= gb.len() && gb.subrange(
                i as int,
                i + len_bytes(m).len(),
            ) == len_bytes(m)) implies m == first as nat by {
            lemma_len_bytes_shape(m);
            assert(len_bytes(m)[0] == gb[i as int]);
        }
        return Ok(v);
    }
    if first == 0x81 {
        if b.len() - i < 2 || b[i + 1] < 0x80 {
            assert forall|m: nat|
                (fits_der_length(m) && i + #[trigger] len_bytes(m).len() <= gb.len()
                    && gb.subrange(i as int, i + len_bytes(m).len()) == len_bytes(m)) implies
                false by {
                lemma_len_bytes_shape(m);
                assert(len_bytes(m)[0] == gb[i as int]);
            }
            return Err(Error::StructuralError(StructuralCause::MalformedEncoding));
        }
        let value = b[i + 1] as usize;
        assert(gb.subrange(i as int, i + 2) =~= len_bytes(value as nat));
        assert forall|m: nat|
            (fits_der_length(m) && i + #[trigger] len_bytes(m).len() <= gb.len() && gb.subrange(
                i as int,
                i + len_bytes(m).len(),
            ) == len_bytes(m)) implies m == value as nat by {
            lemma_len_bytes_shape(m);
            assert(len_bytes(m)[0] == gb[i as int]);
            assert(len_bytes(m)[1] == gb[i + 1]);
        }
        return Ok((value, i + 2));
    }
    if first == 0x82 {
        if b.len() - i < 3 {
            assert forall|m: nat|
                (fits_der_length(m) && i + #[trigger] len_bytes(m).len() <= gb.len()
                    && gb.subrange(i as int, i + len_bytes(m).len()) == len_bytes(m)) implies
                false by {
                lemma_len_bytes_shape(m);
                assert(len_bytes(m)[0] == gb[i as int]);
            }
            return Err(Error::StructuralError(StructuralCause::MalformedEncoding));
        }
        let value = (b[i + 1] as usize) * 0x100 + (b[i + 2] as usize);
        if value < 0x100 {
            assert forall|m: nat|
                (fits_der_length(m) && i + #[trigger] len_bytes(m).len() <= gb.len()
                    && gb.subrange(i as int, i + len_bytes(m).len()) == len_bytes(m)) implies
                false by {
                lemma_len_bytes_shape(m);
                assert(len_bytes(m)[0] == gb[i as int]);
                assert(len_bytes(m)[1] == gb[i + 1]);
                assert(len_bytes(m)[2] == gb[i + 2]);
            }
            return Err(Error::StructuralError(StructuralCause::MalformedEncoding));
        }
        proof {
            lemma_len_bytes_shape(value as nat);
        }
        assert(gb.subrange(i as int, i + 3) =~= len_bytes(value as nat));
        assert forall|m: nat|
            (fits_der_length(m) && i + #[trigger] len_bytes(m).len() <= gb.len() && gb.subrange(
                i as int,
                i + len_bytes(m).len(),
            ) == len_bytes(m)) implies m == value as nat by {
            lemma_len_bytes_shape(m);
            assert(len_bytes(m)[0] == gb[i as int]);
            assert(len_bytes(m)[1] == gb[i + 1]);
            assert(len_bytes(m)[2] == gb[i + 2]);
        }
        return Ok((value, i + 3));
    }
    if first == 0x83 {
        if b.len() - i < 4 {
            assert forall|m: nat|
                (fits_der_length(m) && i + #[trigger] len_bytes(m).len() <= gb.len()
                    && gb.subrange(i as int, i + len_bytes(m).len()) == len_bytes(m)) implies
                false by {
                lemma_len_bytes_shape(m);
                assert(len_bytes(m)[0] == gb[i as int]);
            }
            return Err(Error::StructuralError(StructuralCause::MalformedEncoding));
        }
        let value = (b[i + 1] as usize) * 0x1_0000 + (b[i + 2] as usize) * 0x100 + (b[i + 3]
            as usize);
        if value < 0x1_0000 {
            assert forall|m: nat|
                (fits_der_length(m) && i + #[trigger] len_bytes(m).len() <= gb.len()
                    && gb.subrange(i as int, i + len_bytes(m).len()) == len_bytes(m)) implies
                false by {
                lemma_len_bytes_shape(m);
                assert(len_bytes(m)[0] == gb[i as int]);
                assert(len_bytes(m)[1] == gb[i + 1]);
                assert(len_bytes(m)[2] == gb[i + 2]);
                assert(len_bytes(m)[3] == gb[i + 3]);
            }
            return Err(Error::StructuralError(StructuralCause::MalformedEncoding));
        }
        proof {
            lemma_len_bytes_shape(value as nat);
        }
        assert(gb.subrange(i as int, i + 4) =~= len_bytes(value as nat));
        assert forall|m: nat|
            (fits_der_length(m) && i + #[trigger] len_bytes(m).len() <= gb.len() && gb.subrange(
                i as int,
                i + len_bytes(m).len(),
            ) == len_bytes(m)) implies m == value as nat by {
            lemma_len_bytes_shape(m);
            assert(len_bytes(m)[0] == gb[i as int]);
            assert(len_bytes(m)[1] == gb[i + 1]);
            assert(len_bytes(m)[2] == gb[i + 2]);
            assert(len_bytes(m)[3] == gb[i + 3]);
        }
        return Ok((value, i + 4));
    }
    if first == 0x84 {
        if b.len() - i < 5 {
            assert forall|m: nat|
                (fits_der_length(m) && i + #[trigger] len_bytes(m).len() <= gb.len()
                    && gb.subrange(i as int, i + len_bytes(m).len()) == len_bytes(m)) implies
                false by {
                lemma_len_bytes_shape(m);
                assert(len_bytes(m)[0] == gb[i as int]);
            }
            return Err(Error::StructuralError(StructuralCause::MalformedEncoding));
        }
        let value = (b[i + 1] as usize) * 0x100_0000 + (b[i + 2] as usize) * 0x1_0000 + (b[i + 3]
            as usize) * 0x100 + (b[i + 4] as usize);
        if value < 0x100_0000 {
            assert forall|m: nat|
                (fits_der_length(m) && i + #[trigger] len_bytes(m).len() <= gb.len()
                    && gb.subrange(i as int, i + len_bytes(m).len()) == len_bytes(m)) implies
                false by {
                lemma_len_bytes_shape(m);
                assert(len_bytes(m)[0] == gb[i as int]);
                assert(len_bytes(m)[1] == gb[i + 1]);
                assert(len_bytes(m)[2] == gb[i + 2]);
                assert(len_bytes(m)[3] == gb[i + 3]);
                assert(len_bytes(m)[4] == gb[i + 4]);
            }
            return Err(Error::StructuralError(StructuralCause::MalformedEncoding));
        }
        proof {
            lemma_len_bytes_shape(value as nat);
        }
        assert(gb.subrange(i as int, i + 5) =~= len_bytes(value as nat));
        assert forall|m: nat|
            (fits_der_length(m) && i + #[trigger] len_bytes(m).len() <= gb.len() && gb.subrange(
                i as int,
                i + len_bytes(m).len(),
            ) == len_bytes(m)) implies m == value as nat by {
            lemma_len_bytes_shape(m);
            assert(len_bytes(m)[0] == gb[i as int]);
            assert(len_bytes(m)[1] == gb[i + 1]);
            assert(len_bytes(m)[2] == gb[i + 2]);
            assert(len_bytes(m)[3] == gb[i + 3]);
            assert(len_bytes(m)[4] == gb[i + 4]);
        }
        return Ok((value, i + 5));
    }
    assert forall|m: nat|
        (fits_der_length(m) && i + #[trigger] len_bytes(m).len() <= gb.len() && gb.subrange(
            i as int,
            i + len_bytes(m).len(),
        ) == len_bytes(m)) implies false by {
        lemma_len_bytes_shape(m);
        assert(len_bytes(m)[0] == gb[i as int]);
    }
    Err(Error::StructuralError(StructuralCause::MalformedEncoding))
}

/// Where the bytes of `tlv(tag, c)` lie at position `i` of `gb`, the tag,
/// the length bytes and the content can each be read off at their positions.
pub proof fn lemma_tlv_parts(gb: Seq<u8>, i: int, tag: u8, c: Seq<u8>)
    requires
        fits_der_length(c.len()),
        0 <= i,
        i + tlv(tag, c).len() <= gb.len(),
        gb.subrange(i, i + tlv(tag, c).len()) == tlv(tag, c),
    ensures
        gb[i] == tag,
        gb.subrange(i + 1, i + 1 + len_bytes(c.len()).len()) == len_bytes(c.len()),
        gb.subrange(i + 1 + len_bytes(c.len()).len(), i + tlv(tag, c).len()) == c,
{
    let m = c.len();
    let lb = len_bytes(m);
    let t = tlv(tag, c);
    let sub = gb.subrange(i, i + t.len());
    assert(t.len() == 1 + lb.len() + m);
    assert(sub[0] == gb[i]);
    assert((seq![tag] + lb)[0] == tag);
    assert(t[0] == (seq![tag] + lb)[0]);
    assert forall|k: int| 0 <= k < lb.len() implies gb[i + 1 + k] == lb[k] by {
        assert(sub[1 + k] == gb[i + 1 + k]);
        assert((seq![tag] + lb)[1 + k] == lb[k]);
        assert(t[1 + k] == (seq![tag] + lb)[1 + k]);
    }
    assert(gb.subrange(i + 1, i + 1 + lb.len()) =~= lb);
    assert forall|k: int| 0 <= k < m implies gb[i + 1 + lb.len() + k] == c[k] by {
        assert(sub[1 + lb.len() + k] == gb[i + 1 + lb.len() + k]);
        assert(t[1 + lb.len() + k] == c[k]);
    }
    assert(gb.subrange(i + 1 + lb.len(), i + t.len()) =~= c);
}

/// Reads one DER element with the given tag at position `i`: on success,
/// `b[i .. end]` is exactly `tlv(tag, b[cs .. end])`, and exactly the
/// positions where such an element lies are accepted.
#[verifier::rlimit(100)]
#[verifier::spinoff_prover]
pub fn parse_element(b: &Vec<u8>, i: usize, tag: u8) -> (r: Result<(usize, usize), Error>)
    requires
        i <= b@.len(),
    ensures
        r matches Ok(v) ==> ({
            &&& i < v.0 <= v.1 <= b@.len()
            &&& fits_der_length((v.1 - v.0) as nat)
            &&& b@.subrange(i as int, v.1 as int) == tlv(
                tag,
                b@.subrange(v.0 as int, v.1 as int),
            )
        }),
        forall|c: Seq<u8>|
            (fits_der_length(c.len()) && i + #[trigger] tlv(tag, c).len() <= b@.len()
                && b@.subrange(i as int, i + tlv(tag, c).len()) == tlv(tag, c)) ==> (r matches Ok(
                v,
            ) && v.1 == i + tlv(tag, c).len() && b@.subrange(v.0 as int, v.1 as int) == c),
        r is Err ==> r == Err::<(usize, usize), Error>(
            Error::StructuralError(StructuralCause::MalformedEncoding),
        ),
{
    let ghost gb = b@;
    if b.len() - i < 1 || b[i] != tag {
        assert forall|c: Seq<u8>|
            (fits_der_length(c.len()) && i + #[trigger] tlv(tag, c).len() <= gb.len()
                && gb.subrange(i as int, i + tlv(tag, c).len()) == tlv(tag, c)) implies false by {
            lemma_len_bytes_shape(c.len());
            assert(tlv(tag, c)[0] == tag);
            assert(gb[i as int] == tag);
        }
        return Err(Error::StructuralError(StructuralCause::MalformedEncoding));
    }
    let parsed = parse_der_length(b, i + 1);
    let (n, cs) = match parsed {
        Ok(v) => v,
        Err(e) => {
            assert forall|c: Seq<u8>|
                (fits_der_length(c.len()) && i + #[trigger] tlv(tag, c).len() <= gb.len()
                    && gb.subrange(i as int, i + tlv(tag, c).len()) == tlv(tag, c)) implies
                false by {
                lemma_len_bytes_shape(c.len());
                lemma_tlv_parts(gb, i as int, tag, c);
            }
            return Err(e);
        },
    };
    if b.len() - cs < n {
        assert forall|c: Seq<u8>|
            (fits_der_length(c.len()) && i + #[trigger] tlv(tag, c).len() <= gb.len()
                && gb.subrange(i as int, i + tlv(tag, c).len()) == tlv(tag, c)) implies false by {
            lemma_len_bytes_shape(c.len());
            lemma_tlv_parts(gb, i as int, tag, c);
        }
        return Err(Error::StructuralError(StructuralCause::MalformedEncoding));
    }
    let end = cs + n;
    assert(gb.subrange(i as int, end as int) =~= seq![tag] + gb.subrange(i + 1, cs as int)
        + gb.subrange(cs as int, end as int));
    assert(gb.subrange(i as int, end as int) == tlv(tag, gb.subrange(cs as int, end as int)));
    assert forall|c: Seq<u8>|
        (fits_der_length(c.len()) && i + #[trigger] tlv(tag, c).len() <= gb.len() && gb.subrange(
            i as int,
            i + tlv(tag, c).len(),
        ) == tlv(tag, c)) implies (end == i + tlv(tag, c).len() && gb.subrange(
        cs as int,
        end as int,
    ) == c) by {
        lemma_len_bytes_shape(c.len());
        lemma_tlv_parts(gb, i as int, tag, c);
        let m = c.len();
        assert(n == m);
        assert(cs == i + 1 + len_bytes(m).len());
        assert(gb.subrange(cs as int, end as int) == c);
    }
    Ok((cs, end))
}

/// Positions of the fields inside the content of an encoded request-info
/// payload.
pub proof fn lemma_info_content_parts(v: RequestInfoPayloadView)
    ensures
        info_content(v).len() == 3 + v.subject.len() + v.public_key.len() + v.attributes.len(),
        info_content(v)[0] == 0x02,
        info_content(v)[1] == 0x01,
        info_content(v)[2] == v.version,
        info_content(v).subrange(3, 3 + v.subject.len() as int) == v.subject,
        info_content(v).subrange(
            3 + v.subject.len() as int,
            3 + v.subject.len() as int + v.public_key.len() as int,
        ) == v.public_key,
        info_content(v).subrange(
            3 + v.subject.len() as int + v.public_key.len() as int,
            info_content(v).len() as int,
        ) == v.attributes,
{
    let ic = info_content(v);
    let vb = version_bytes(v.version);
    let s = v.subject;
    let k = v.public_key;
    let a = v.attributes;
    assert((vb + s)[0] == vb[0]);
    assert((vb + s + k)[0] == (vb + s)[0]);
    assert(ic[0] == (vb + s + k)[0]);
    assert((vb + s)[1] == vb[1]);
    assert((vb + s + k)[1] == (vb + s)[1]);
    assert(ic[1] == (vb + s + k)[1]);
    assert((vb + s)[2] == vb[2]);
    assert((vb + s + k)[2] == (vb + s)[2]);
    assert(ic[2] == (vb + s + k)[2]);
    assert forall|j: int| 0 <= j < s.len() implies ic[3 + j] == s[j] by {
        assert((vb + s)[3 + j] == s[j]);
        assert((vb + s + k)[3 + j] == (vb + s)[3 + j]);
        assert(ic[3 + j] == (vb + s + k)[3 + j]);
    }
    assert(ic.subrange(3, 3 + s.len() as int) =~= s);
    assert forall|j: int| 0 <= j < k.len() implies ic[3 + s.len() + j] == k[j] by {
        assert((vb + s + k)[3 + s.len() + j] == k[j]);
        assert(ic[3 + s.len() + j] == (vb + s + k)[3 + s.len() + j]);
    }
    assert(ic.subrange(3 + s.len() as int, 3 + s.len() as int + k.len() as int) =~= k);
    assert forall|j: int| 0 <= j < a.len() implies ic[3 + s.len() + k.len() + j] == a[j] by {
        assert(ic[3 + s.len() + k.len() + j] == a[j]);
    }
    assert(ic.subrange(3 + s.len() as int + k.len() as int, ic.len() as int) =~= a);
}

/// Two elements with the same tag and the same total encoding have the same
/// content.
pub proof fn lemma_tlv_content_eq(tag: u8, c1: Seq<u8>, c2: Seq<u8>)
    requires
        fits_der_length(c1.len()),
        fits_der_length(c2.len()),
        tlv(tag, c1) == tlv(tag, c2),
    ensures
        c1 == c2,
{
    let t = tlv(tag, c1);
    let l1 = len_bytes(c1.len());
    let l2 = len_bytes(c2.len());
    lemma_len_bytes_shape(c1.len());
    lemma_len_bytes_shape(c2.len());
    assert(t.subrange(0, t.len() as int) =~= t);
    lemma_tlv_parts(t, 0, tag, c1);
    lemma_tlv_parts(t, 0, tag, c2);
    assert(l1[0] == t.subrange(1, 1 + l1.len() as int)[0]);
    assert(l2[0] == t.subrange(1, 1 + l2.len() as int)[0]);
    assert(l1[0] == t[1]);
    assert(l2[0] == t[1]);
    assert(l1.len() == l2.len());
    assert(l1 == t.subrange(1, 1 + l1.len() as int));
    assert(l2 == t.subrange(1, 1 + l2.len() as int));
    lemma_len_bytes_injective(c1.len(), c2.len());
    assert(c1 == t.subrange(1 + l1.len() as int, t.len() as int));
    assert(c2 == t.subrange(1 + l2.len() as int, t.len() as int));
}

/// Two complete elements with the same tag that both lie at the start of the
/// same byte sequence are the same element: the header fixes the length.
pub proof fn lemma_element_prefix_unique(z: Seq<u8>, tag: u8, x: Seq<u8>, y: Seq<u8>)
    requires
        is_element(x, tag),
        is_element(y, tag),
        x.len() <= z.len(),
        y.len() <= z.len(),
        z.subrange(0, x.len() as int) == x,
        z.subrange(0, y.len() as int) == y,
    ensures
        x == y,
{
    let cx = choose|c: Seq<u8>| fits_der_length(c.len()) && x == tlv(tag, c);
    let cy = choose|c: Seq<u8>| fits_der_length(c.len()) && y == tlv(tag, c);
    lemma_len_bytes_shape(cx.len());
    lemma_len_bytes_shape(cy.len());
    let lx = len_bytes(cx.len());
    let ly = len_bytes(cy.len());
    lemma_tlv_parts(z, 0, tag, cx);
    lemma_tlv_parts(z, 0, tag, cy);
    assert(lx[0] == z.subrange(1, 1 + lx.len() as int)[0]);
    assert(ly[0] == z.subrange(1, 1 + ly.len() as int)[0]);
    assert(lx[0] == z[1]);
    assert(ly[0] == z[1]);
    assert(lx.len() == ly.len());
    assert(lx == z.subrange(1, 1 + lx.len() as int));
    assert(ly == z.subrange(1, 1 + ly.len() as int));
    lemma_len_bytes_injective(cx.len(), cy.len());
    assert(x.len() == y.len());
    assert(x == y);
}

/// Canonical payload encodings are injective on well-formed payloads:
/// together with `decode_info`'s contract this is round-trip determinism,
/// `decode(encode(p)) == p`.
pub proof fn lemma_encoded_info_injective(v1: RequestInfoPayloadView, v2: RequestInfoPayloadView)
    requires
        wf_payload(v1),
        wf_payload(v2),
        encoded_info(v1) == encoded_info(v2),
    ensures
        v1 == v2,
{
    let ic1 = info_content(v1);
    let ic2 = info_content(v2);
    lemma_tlv_content_eq(0x30, ic1, ic2);
    lemma_info_content_parts(v1);
    lemma_info_content_parts(v2);
    let z = ic1.subrange(3, ic1.len() as int);
    assert(z.subrange(0, v1.subject.len() as int) =~= ic1.subrange(3, 3 + v1.subject.len() as int));
    assert(z.subrange(0, v2.subject.len() as int) =~= ic2.subrange(3, 3 + v2.subject.len() as int));
    lemma_element_prefix_unique(z, 0x30, v1.subject, v2.subject);
    let sl = v1.subject.len() as int;
    let z2 = ic1.subrange(3 + sl, ic1.len() as int);
    assert(z2.subrange(0, v1.public_key.len() as int) =~= ic1.subrange(
        3 + sl,
        3 + sl + v1.public_key.len() as int,
    ));
    assert(z2.subrange(0, v2.public_key.len() as int) =~= ic2.subrange(
        3 + sl,
        3 + sl + v2.public_key.len() as int,
    ));
    lemma_element_prefix_unique(z2, 0x30, v1.public_key, v2.public_key);
    let kl = v1.public_key.len() as int;
    assert(v1.attributes.len() == v2.attributes.len());
    assert(v1.attributes =~= v2.attributes) by {
        assert forall|j: int| 0 <= j < v1.attributes.len() implies v1.attributes[j]
            == v2.attributes[j] by {
            assert(ic1.subrange(3 + sl + kl, ic1.len() as int)[j] == v1.attributes[j]);
            assert(ic2.subrange(3 + sl + kl, ic2.len() as int)[j] == v2.attributes[j]);
        }
    }
}

/// Positions of the payload fields inside bytes that carry a well-formed
/// payload's canonical encoding, relative to the start of the outer content.
pub proof fn lemma_wf_positions(gb: Seq<u8>, v: RequestInfoPayloadView, cs: int, end: int)
    requires
        wf_payload(v),
        gb == encoded_info(v),
        0 <= cs <= end <= gb.len(),
        gb.subrange(cs, end) == info_content(v),
    ensures
        end - cs == info_content(v).len(),
        end - cs >= 3,
        gb[cs] == 0x02,
        gb[cs + 1] == 0x01,
        gb[cs + 2] == v.version,
        gb.subrange(cs + 3, cs + 3 + v.subject.len() as int) == v.subject,
        gb.subrange(
            cs + 3 + v.subject.len() as int,
            cs + 3 + v.subject.len() as int + v.public_key.len() as int,
        ) == v.public_key,
        gb.subrange(cs + 3 + v.subject.len() as int + v.public_key.len() as int, end)
            == v.attributes,
        cs + 3 + v.subject.len() + v.public_key.len() + v.attributes.len() == end,
{
    lemma_info_content_parts(v);
    let ic = info_content(v);
    let sub = gb.subrange(cs, end);
    assert forall|j: int| 0 <= j < ic.len() implies gb[cs + j] == ic[j] by {
        assert(sub[j] == gb[cs + j]);
    }
    assert(gb[cs] == ic[0]);
    assert(gb[cs + 1] == ic[1]);
    assert(gb[cs + 2] == ic[2]);
    let sl = v.subject.len() as int;
    let kl = v.public_key.len() as int;
    assert(gb.subrange(cs + 3, cs + 3 + sl) =~= ic.subrange(3, 3 + sl));
    assert(gb.subrange(cs + 3 + sl, cs + 3 + sl + kl) =~= ic.subrange(3 + sl, 3 + sl + kl));
    assert(gb.subrange(cs + 3 + sl + kl, end) =~= ic.subrange(3 + sl + kl, ic.len() as int));
}

/// Decodes the canonical encoding of a request-info payload. Exactly the
/// canonical encodings of well-formed payloads are accepted, and a decoded
/// payload re-encodes to exactly the input bytes.
#[verifier::rlimit(100)]
#[verifier::spinoff_prover]
pub fn decode_info(b: &Vec<u8>) -> (r: Result<RequestInfoPayload, Error>)
    ensures
        r matches Ok(p) ==> wf_payload(p@) && b@ == encoded_info(p@),
        forall|v: RequestInfoPayloadView|
            (wf_payload(v) && b@ == #[trigger] encoded_info(v)) ==> r is Ok,
        r is Err ==> r == Err::<RequestInfoPayload, Error>(
            Error::StructuralError(StructuralCause::MalformedEncoding),
        ),
{
    let ghost gb = b@;
    proof {
        assert(gb.subrange(0, gb.len() as int) =~= gb);
    }
    let outer = parse_element(b, 0, 0x30);
    let (cs, end) = match outer {
        Ok(v) => v,
        Err(e) => {
            assert forall|v: RequestInfoPayloadView|
                (wf_payload(v) && gb == #[trigger] encoded_info(v)) implies false by {
                assert(0 + tlv(0x30u8, info_content(v)).len() <= gb.len());
            }
            return Err(e);
        },
    };
    if end != b.len() {
        assert forall|v: RequestInfoPayloadView|
            (wf_payload(v) && gb == #[trigger] encoded_info(v)) implies false by {
            assert(0 + tlv(0x30u8, info_content(v)).len() <= gb.len());
        }
        return Err(Error::StructuralError(StructuralCause::MalformedEncoding));
    }
    if b.len() - cs < 3 {
        assert forall|v: RequestInfoPayloadView|
            (wf_payload(v) && gb == #[trigger] encoded_info(v)) implies false by {
            assert(0 + tlv(0x30u8, info_content(v)).len() <= gb.len());
            lemma_wf_positions(gb, v, cs as int, end as int);
        }
        return Err(Error::StructuralError(StructuralCause::MalformedEncoding));
    }
    let version_tag_ok = b[cs] == 0x02 && b[cs + 1] == 0x01;
    let version = b[cs + 2];
    if !version_tag_ok || version >= 0x80 {
        assert forall|v: RequestInfoPayloadView|
            (wf_payload(v) && gb == #[trigger] encoded_info(v)) implies false by {
            assert(0 + tlv(0x30u8, info_content(v)).len() <= gb.len());
            lemma_wf_positions(gb, v, cs as int, end as int);
        }
        return Err(Error::StructuralError(StructuralCause::MalformedEncoding));
    }
    let sub_parse = parse_element(b, cs + 3, 0x30);
    let (_s_cs, s_end) = match sub_parse {
        Ok(v) => v,
        Err(e) => {
            assert forall|v: RequestInfoPayloadView|
                (wf_payload(v) && gb == #[trigger] encoded_info(v)) implies false by {
                assert(0 + tlv(0x30u8, info_content(v)).len() <= gb.len());
                lemma_wf_positions(gb, v, cs as int, end as int);
                let csub = choose|c: Seq<u8>|
                    fits_der_length(c.len()) && v.subject == #[trigger] tlv(0x30u8, c);
                assert((cs + 3) + tlv(0x30u8, csub).len() <= gb.len());
            }
            return Err(e);
        },
    };
    let subject = copy_range(b, cs + 3, s_end);
    let key_parse = parse_element(b, s_end, 0x30);
    let (_k_cs, k_end) = match key_parse {
        Ok(v) => v,
        Err(e) => {
            assert forall|v: RequestInfoPayloadView|
                (wf_payload(v) && gb == #[trigger] encoded_info(v)) implies false by {
                assert(0 + tlv(0x30u8, info_content(v)).len() <= gb.len());
                lemma_wf_positions(gb, v, cs as int, end as int);
                let csub = choose|c: Seq<u8>|
                    fits_der_length(c.len()) && v.subject == #[trigger] tlv(0x30u8, c);
                assert((cs + 3) + tlv(0x30u8, csub).len() <= gb.len());
                let ckey = choose|c: Seq<u8>|
                    fits_der_length(c.len()) && v.public_key == #[trigger] tlv(0x30u8, c);
                assert(s_end + tlv(0x30u8, ckey).len() <= gb.len());
            }
            return Err(e);
        },
    };
    let public_key = copy_range(b, s_end, k_end);
    let attr_parse = parse_element(b, k_end, 0xA0);
    let (_a_cs, a_end) = match attr_parse {
        Ok(v) => v,
        Err(e) => {
            assert forall|v: RequestInfoPayloadView|
                (wf_payload(v) && gb == #[trigger] encoded_info(v)) implies false by {
                assert(0 + tlv(0x30u8, info_content(v)).len() <= gb.len());
                lemma_wf_positions(gb, v, cs as int, end as int);
                let csub = choose|c: Seq<u8>|
                    fits_der_length(c.len()) && v.subject == #[trigger] tlv(0x30u8, c);
                assert((cs + 3) + tlv(0x30u8, csub).len() <= gb.len());
                let ckey = choose|c: Seq<u8>|
                    fits_der_length(c.len()) && v.public_key == #[trigger] tlv(0x30u8, c);
                assert(s_end + tlv(0x30u8, ckey).len() <= gb.len());
                let cattr = choose|c: Seq<u8>|
                    fits_der_length(c.len()) && v.attributes == #[trigger] tlv(0xA0u8, c);
                assert(k_end + tlv(0xA0u8, cattr).len() <= gb.len());
            }
            return Err(e);
        },
    };
    let attributes = copy_range(b, k_end, a_end);
    if a_end != b.len() {
        assert forall|v: RequestInfoPayloadView|
            (wf_payload(v) && gb == #[trigger] encoded_info(v)) implies false by {
            assert(0 + tlv(0x30u8, info_content(v)).len() <= gb.len());
            lemma_wf_positions(gb, v, cs as int, end as int);
            let csub = choose|c: Seq<u8>|
                fits_der_length(c.len()) && v.subject == #[trigger] tlv(0x30u8, c);
            assert((cs + 3) + tlv(0x30u8, csub).len() <= gb.len());
            let ckey = choose|c: Seq<u8>|
                fits_der_length(c.len()) && v.public_key == #[trigger] tlv(0x30u8, c);
            assert(s_end + tlv(0x30u8, ckey).len() <= gb.len());
            let cattr = choose|c: Seq<u8>|
                fits_der_length(c.len()) && v.attributes == #[trigger] tlv(0xA0u8, c);
            assert(k_end + tlv(0xA0u8, cattr).len() <= gb.len());
        }
        return Err(Error::StructuralError(StructuralCause::MalformedEncoding));
    }
    let payload = RequestInfoPayload { version, subject, public_key, attributes };
    proof {
        assert(gb.subrange(cs as int, end as int) =~= seq![0x02u8, 0x01u8, version]
            + payload.subject@ + payload.public_key@ + payload.attributes@);
        assert(info_content(payload@) == gb.subrange(cs as int, end as int));
        assert(payload.subject@ == tlv(0x30u8, gb.subrange(_s_cs as int, s_end as int)));
        assert(is_element(payload.subject@, 0x30));
        assert(payload.public_key@ == tlv(0x30u8, gb.subrange(_k_cs as int, k_end as int)));
        assert(is_element(payload.public_key@, 0x30));
        assert(payload.attributes@ == tlv(0xA0u8, gb.subrange(_a_cs as int, a_end as int)));
        assert(is_element(payload.attributes@, 0xA0));
        assert(gb == tlv(0x30u8, gb.subrange(cs as int, end as int)));
        assert(gb == encoded_info(payload@));
    }
    Ok(payload)
}

/// Canonically encodes a request-info payload: the exact byte sequence over
/// which the self-signature is computed and verified.
pub fn encode_info(p: &RequestInfoPayload) -> (r: Result<Vec<u8>, Error>)
    ensures
        r is Ok <==> info_encodable(p@),
        r matches Ok(v) ==> v@ == encoded_info(p@),
        r is Err ==> r == Err::<Vec<u8>, Error>(Error::EncodingError),
{
    let total: u128 = 3u128 + p.subject.len() as u128 + p.public_key.len() as u128
        + p.attributes.len() as u128;
    if total >= 0x1_0000_0000u128 {
        return Err(Error::EncodingError);
    }
    let content_len: usize = total as usize;
    assert(content_len as nat == info_content(p@).len());
    let mut out: Vec<u8> = Vec::new();
    out.push(0x30u8);
    encode_der_length(&mut out, content_len);
    out.push(0x02u8);
    out.push(0x01u8);
    out.push(p.version);
    push_all(&mut out, p.subject.as_slice());
    push_all(&mut out, p.public_key.as_slice());
    push_all(&mut out, p.attributes.as_slice());
    assert(out@ =~= encoded_info(p@));
    Ok(out)
}

/// Canonically encodes an algorithm identifier.
pub fn encode_algorithm(a: &AlgorithmIdentifier) -> (r: Result<Vec<u8>, Error>)
    ensures
        r is Ok <==> algorithm_encodable(a@),
        r matches Ok(v) ==> v@ == encoded_algorithm(a@),
        r is Err ==> r == Err::<Vec<u8>, Error>(Error::EncodingError),
{
    let params_len: usize = match &a.params {
        Option::Some(p) => p.len(),
        Option::None => 0,
    };
    let oid_len_u128: u128 = a.oid.len() as u128;
    if oid_len_u128 >= 0x1_0000_0000u128 {
        return Err(Error::EncodingError);
    }
    let mut oid_elem: Vec<u8> = Vec::new();
    oid_elem.push(0x06u8);
    encode_der_length(&mut oid_elem, a.oid.len());
    push_all(&mut oid_elem, a.oid.as_slice());
    assert(oid_elem@ =~= tlv(0x06, a@.oid));

    let total: u128 = oid_elem.len() as u128 + params_len as u128;
    if total >= 0x1_0000_0000u128 {
        return Err(Error::EncodingError);
    }
    assert(total as nat == algorithm_content(a@).len());
    let content_len: usize = total as usize;
    let mut out: Vec<u8> = Vec::new();
    out.push(0x30u8);
    encode_der_length(&mut out, content_len);
    push_all(&mut out, oid_elem.as_slice());
    match &a.params {
        Option::Some(p) => {
            push_all(&mut out, p.as_slice());
        },
        Option::None => {},
    }
    assert(out@ =~= encoded_algorithm(a@));
    Ok(out)
}

/// Canonically encodes a whole signed request into its final wire bytes.
pub fn encode_request(r: &SignedRequest) -> (res: Result<Vec<u8>, Error>)
    ensures
        res is Ok <==> request_encodable(r@),
        res matches Ok(v) ==> v@ == encoded_request(r@),
        res is Err ==> res == Err::<Vec<u8>, Error>(Error::EncodingError),
{
    let info_elem = match encode_info(&r.info) {
        Ok(v) => v,
        Err(e) => {
            return Err(e);
        },
    };
    let algo_elem = match encode_algorithm(&r.algorithm) {
        Ok(v) => v,
        Err(e) => {
            return Err(e);
        },
    };
    let sig_content_len_u128: u128 = 1u128 + r.signature.bytes.len() as u128;
    if sig_content_len_u128 >= 0x1_0000_0000u128 {
        return Err(Error::EncodingError);
    }
    let sig_content_len: usize = sig_content_len_u128 as usize;
    let mut sig_elem: Vec<u8> = Vec::new();
    sig_elem.push(0x03u8);
    encode_der_length(&mut sig_elem, sig_content_len);
    sig_elem.push(r.signature.unused_bits);
    push_all(&mut sig_elem, r.signature.bytes.as_slice());
    assert(sig_elem@ =~= encoded_signature(r@.signature));

    let total: u128 = info_elem.len() as u128 + algo_elem.len() as u128 + sig_elem.len() as u128;
    if total >= 0x1_0000_0000u128 {
        return Err(Error::EncodingError);
    }
    assert(total as nat == request_content(r@).len());
    let content_len: usize = total as usize;
    let mut out: Vec<u8> = Vec::new();
    out.push(0x30u8);
    encode_der_length(&mut out, content_len);
    push_all(&mut out, info_elem.as_slice());
    push_all(&mut out, algo_elem.as_slice());
    push_all(&mut out, sig_elem.as_slice());
    assert(out@ =~= encoded_request(r@));
    Ok(out)
}

} // verus!
