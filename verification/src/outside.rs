//! Declarations of the outside types and calls the library relies on.
//!
//! Everything here is trusted: Verus believes the stated contracts without
//! reading the bodies.  Each item names the outside function it relies on.

use vstd::prelude::*;

verus! {

#[verifier::external_type_specification]
#[verifier::external_body]
pub struct ExJsonValue(serde_json::Value);

/// Relies on serde_json's `Value::Null` constructor.  The document's
/// pass-through fields (name, extensions, extras) hold such values; the
/// packer carries them along without ever reading them, and uses `Null` for
/// fields of entries it synthesizes itself.
#[verifier::external_body]
pub fn json_null() -> serde_json::Value {
    serde_json::Value::Null
}

/// What base64's standard-alphabet decoder returns for a given character
/// sequence: the decoded bytes, or `None` when the payload is not valid
/// standard base64.  The result depends on the input characters alone.
pub uninterp spec fn base64_decoding(s: Seq<char>) -> Option<Seq<u8>>;

/// Relies on base64's `Engine::decode` with the `BASE64_STANDARD` engine
/// (the standard alphabet with padding): it decodes the payload, or reports
/// a `DecodeError` on malformed input, from the input bytes alone.
#[verifier::external_body]
pub fn base64_decode(s: &str) -> (r: Option<Vec<u8>>)
    ensures
        match r {
            Some(v) => base64_decoding(s@) == Some(v@),
            None => base64_decoding(s@) is None,
        },
{
    base64::Engine::decode(&base64::prelude::BASE64_STANDARD, s).ok()
}

/// What image's magic-byte sniffing yields for a given payload: the MIME
/// type of the guessed format, or `None` when no known signature matches.
/// The result depends on the payload bytes alone.
pub uninterp spec fn mime_guess_of(d: Seq<u8>) -> Option<Seq<char>>;

/// Relies on image's `guess_format` (a pure match on leading magic bytes)
/// and `ImageFormat::to_mime_type` (a pure map from format to MIME string).
#[verifier::external_body]
pub fn guess_mime_type(d: &[u8]) -> (r: Option<String>)
    ensures
        match r {
            Some(s) => mime_guess_of(d@) == Some(s@),
            None => mime_guess_of(d@) is None,
        },
{
    image::guess_format(d).ok().map(|f| f.to_mime_type().to_owned())
}

} // verus!
