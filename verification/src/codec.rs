//! Encodings the world stores and exchanges: standard base64.
use vstd::prelude::*;
use base64::Engine;

verus! {

/// The standard, padded base64 text of `bytes` (RFC 4648 alphabet).
pub uninterp spec fn base64_standard(bytes: Seq<u8>) -> Seq<char>;

/// The bytes that standard padded base64 text decodes to; none when it is not valid.
pub uninterp spec fn base64_standard_decode(text: Seq<u8>) -> Option<Seq<u8>>;

#[verifier::external_type_specification]
#[verifier::external_body]
pub struct ExDecodeError(base64::DecodeError);

/// Encodes with `base64::engine::general_purpose::STANDARD.encode`: the result is the
/// standard padded base64 text of the bytes, which the same engine decodes back to
/// them. The crate panics only when the encoded length overflows `usize`, which the
/// bound on the input rules out.
#[verifier::external_body]
pub(crate) fn b64_encode(bytes: &[u8]) -> (r: String)
    requires
        bytes@.len() <= usize::MAX / 2,
    ensures
        r@ == base64_standard(bytes@),
        base64_standard_decode(vstd::utf8::encode_utf8(r@)) == Some(bytes@),
{
    base64::engine::general_purpose::STANDARD.encode(bytes)
}

/// Decodes with `base64::engine::general_purpose::STANDARD.decode`: the bytes the
/// text stands for, or the crate's error when it is not valid padded base64.
#[verifier::external_body]
pub(crate) fn b64_decode(text: &[u8]) -> (r: Result<Vec<u8>, base64::DecodeError>)
    ensures
        r is Ok <==> base64_standard_decode(text@) is Some,
        r matches Ok(v) ==> v@ == base64_standard_decode(text@)->Some_0,
{
    base64::engine::general_purpose::STANDARD.decode(text)
}

} // verus!
