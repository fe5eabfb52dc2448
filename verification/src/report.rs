use base64::Engine;
use vstd::prelude::*;

use crate::text::owned;

verus! {

/// What the `base64` crate's standard engine (`STANDARD`, padded, standard
/// alphabet) gives for this input: the decoded bytes, or the text of the
/// decoding error (its `Display` form).
pub uninterp spec fn base64_standard_decode(input: Seq<char>) -> Result<Seq<u8>, Seq<char>>;

/// Trusted: `base64::engine::general_purpose::STANDARD.decode`. The outcome,
/// with the error shown through its `Display` form, is named
/// [`base64_standard_decode`] of the input's characters.
#[verifier::external_body]
fn base64_decode_standard(input: &str) -> (r: Result<Vec<u8>, String>)
    ensures
        match r {
            Ok(v) => base64_standard_decode(input@) == Ok::<Seq<u8>, Seq<char>>(v@),
            Err(e) => base64_standard_decode(input@) == Err::<Seq<u8>, Seq<char>>(e@),
        },
{
    match base64::engine::general_purpose::STANDARD.decode(input) {
        Ok(v) => Ok(v),
        Err(e) => Err(format!("{}", e)),
    }
}

/// The answer to a decoded report image: the bytes, or the failure message
/// with the decoder's error.
pub open spec fn image_answer(decoded: Result<Seq<u8>, Seq<char>>) -> Result<Seq<u8>, Seq<char>> {
    match decoded {
        Ok(v) => Ok(v),
        Err(e) => Err("解码图片失败: "@ + e),
    }
}

/// The answer to a decoded report image: the bytes as they are, or the
/// failure message with the decoder's error.
pub fn image_decode_answer(decoded: Result<Vec<u8>, String>) -> (r: Result<Vec<u8>, String>)
    ensures
        match (decoded, r) {
            (Ok(v), Ok(w)) => image_answer(Ok(v@)) == Ok::<Seq<u8>, Seq<char>>(w@),
            (Err(e), Err(m)) => image_answer(Err(e@)) == Err::<Seq<u8>, Seq<char>>(m@),
            _ => false,
        },
{
    match decoded {
        Ok(v) => Ok(v),
        Err(e) => {
            let mut m = owned("解码图片失败: ");
            m.append(e.as_str());
            Err(m)
        },
    }
}

/// Decodes the base64 text of a report image with the standard engine; on
/// failure, the message names the decoder's error.
pub fn decode_report_image(image_base64: &str) -> (r: Result<Vec<u8>, String>)
    ensures
        match r {
            Ok(w) => image_answer(base64_standard_decode(image_base64@)) == Ok::<
                Seq<u8>,
                Seq<char>,
            >(w@),
            Err(m) => image_answer(base64_standard_decode(image_base64@)) == Err::<
                Seq<u8>,
                Seq<char>,
            >(m@),
        },
{
    let decoded = base64_decode_standard(image_base64);
    image_decode_answer(decoded)
}

} // verus!
