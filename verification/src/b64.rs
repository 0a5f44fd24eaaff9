//! Base64, through the `base64` crate.
use base64::Engine;
use vstd::prelude::*;

verus! {

/// Standard base64 of bytes, padded.
pub uninterp spec fn standard_b64_text(data: Seq<u8>) -> Seq<char>;

/// What standard base64 decoding, padding required, makes of a text.
pub uninterp spec fn standard_b64_bytes(text: Seq<char>) -> Option<Seq<u8>>;

/// What standard base64 decoding, padding optional, makes of a text.
pub uninterp spec fn lenient_b64_bytes(text: Seq<char>) -> Option<Seq<u8>>;

/// The bytes of an optional buffer.
pub open spec fn bytes_view(r: Option<Vec<u8>>) -> Option<Seq<u8>> {
    match r {
        Some(v) => Some(v@),
        None => None,
    }
}

/// `Engine::encode` of the `base64` crate, standard alphabet, padded: the result is
/// [`standard_b64_text`], and both decoders give back the bytes it was made from.
#[verifier::external_body]
pub(crate) fn standard_encode(data: &[u8]) -> (r: String)
    requires
        data@.len() <= usize::MAX / 4,
    ensures
        r@ == standard_b64_text(data@),
        standard_b64_bytes(r@) == Some(data@),
        lenient_b64_bytes(r@) == Some(data@),
{
    base64::engine::general_purpose::STANDARD.encode(data)
}

/// `Engine::decode` of the `base64` crate, standard alphabet, padding required: the result
/// is [`standard_b64_bytes`], and `None` where the crate reports an error.
#[verifier::external_body]
pub(crate) fn standard_decode(text: &str) -> (r: Option<Vec<u8>>)
    ensures
        bytes_view(r) == standard_b64_bytes(text@),
{
    base64::engine::general_purpose::STANDARD.decode(text).ok()
}

/// `Engine::decode` of the `base64` crate, standard alphabet, padding optional: the result
/// is [`lenient_b64_bytes`], and `None` where the crate reports an error.
#[verifier::external_body]
pub(crate) fn lenient_decode(text: &str) -> (r: Option<Vec<u8>>)
    ensures
        bytes_view(r) == lenient_b64_bytes(text@),
{
    base64::engine::GeneralPurpose::new(
        &base64::alphabet::STANDARD,
        base64::engine::GeneralPurposeConfig::new().with_decode_padding_mode(
            base64::engine::DecodePaddingMode::Indifferent,
        ),
    ).decode(text).ok()
}

} // verus!
