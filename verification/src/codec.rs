//! Binary-to-text transport of image blobs.
//!
//! Image payloads arrive as standard, padded base64 text and are decoded to
//! raw bytes before storage.  The transform itself is the base64 crate's;
//! only its contract is stated here.

use base64::Engine;
use vstd::prelude::*;

verus! {

/// The canonical standard-alphabet, padded base64 writing of `bytes`.
pub uninterp spec fn b64_of(bytes: Seq<u8>) -> Seq<char>;

/// `text` is the canonical encoding of some byte string: exactly the
/// inputs the decoder accepts.
pub open spec fn is_b64(text: Seq<char>) -> bool {
    exists|b: Seq<u8>| text == b64_of(b)
}

/// Relies on base64's `Engine::decode` with the `STANDARD` engine.  That
/// engine requires canonical padding and rejects non-zero trailing bits, so
/// it accepts exactly the canonical encodings and inverts them: decoding
/// the encoding of any byte string gives those bytes back.
#[verifier::external_body]
pub(crate) fn decode_base64(text: &str) -> (r: Option<Vec<u8>>)
    ensures
        r is Some ==> text@ == b64_of(r.unwrap()@),
        forall|b: Seq<u8>| text@ == b64_of(b) ==> r is Some && r.unwrap()@ == b,
{
    match base64::engine::general_purpose::STANDARD.decode(text) {
        Ok(bytes) => Some(bytes),
        Err(_) => None,
    }
}

} // verus!
