//! URIs and the restricted data-URI grammar the document format accepts.
//!
//! A buffer or image may embed its payload inline as
//! `data:` + media type + optional `;base64` + `,` + payload, where the
//! media type is one of exactly two literal strings and carries no other
//! parameter.  Any URI not of that shape is an external reference, looked
//! up verbatim in the caller-supplied blob map.

use vstd::prelude::*;

verus! {

/// The URI (or IRI) of a buffer or image, as it stands in the document.
#[derive(Debug, PartialEq)]
pub struct GltfUri(pub String);

impl View for GltfUri {
    type V = Seq<char>;

    open spec fn view(&self) -> Seq<char> {
        self.0@
    }
}

impl Clone for GltfUri {
    fn clone(&self) -> (r: Self)
        ensures
            r@ == self@,
    {
        GltfUri(self.0.clone())
    }
}

/// `p` occurs in `s` starting at position `at`.
pub open spec fn prefix_at(s: Seq<char>, at: int, p: Seq<char>) -> bool {
    &&& 0 <= at
    &&& at + p.len() <= s.len()
    &&& s.subrange(at, at + p.len() as int) == p
}

/// Where the mandatory `data:` scheme and media type end, if the URI
/// matches the grammar so far.  The media type must be one of exactly two
/// literals; neither is a prefix of the other, so the order of the two
/// tests does not matter.
pub open spec fn data_uri_media_end(s: Seq<char>) -> Option<int> {
    if prefix_at(s, 0, "data:application/octet-stream"@) {
        Some("data:application/octet-stream"@.len() as int)
    } else if prefix_at(s, 0, "data:application/gltf-buffer"@) {
        Some("data:application/gltf-buffer"@.len() as int)
    } else {
        None
    }
}

/// Parse a URI against the data-URI grammar: `None` when the URI is not a
/// data URI of the accepted shape, otherwise whether the payload is
/// base64-encoded and the position where the payload starts.
pub open spec fn data_uri_parse_spec(s: Seq<char>) -> Option<(bool, int)> {
    match data_uri_media_end(s) {
        None => None,
        Some(m) => if prefix_at(s, m, ";base64,"@) {
            Some((true, m + ";base64,"@.len() as int))
        } else if prefix_at(s, m, ","@) {
            Some((false, m + 1))
        } else {
            None
        },
    }
}

/// The payload of a data URI: everything after the first comma.
pub open spec fn data_uri_payload(s: Seq<char>, start: int) -> Seq<char> {
    s.subrange(start, s.len() as int)
}

/// Whether `pat` occurs in `s` at character position `at`.
fn starts_with_at(s: &str, at: usize, pat: &str) -> (r: bool)
    ensures
        r == prefix_at(s@, at as int, pat@),
{
    let s_len = s.unicode_len();
    let pat_len = pat.unicode_len();
    if at > s_len || pat_len > s_len - at {
        return false;
    }
    let mut i: usize = 0;
    while i < pat_len
        invariant
            i <= pat_len,
            at + pat_len <= s_len,
            s_len == s@.len(),
            pat_len == pat@.len(),
            forall|j: int| 0 <= j < i ==> s@[at + j] == pat@[j],
        decreases pat_len - i,
    {
        if s.get_char(at + i) != pat.get_char(i) {
            assert(!prefix_at(s@, at as int, pat@)) by {
                if prefix_at(s@, at as int, pat@) {
                    assert(s@.subrange(at as int, at + pat@.len() as int)[i as int] == pat@[
                        i as int
                    ]);
                }
            };
            return false;
        }
        i += 1;
    }
    assert(s@.subrange(at as int, at + pat@.len() as int) =~= pat@);
    true
}

/// Parse a URI against the restricted data-URI grammar, returning whether
/// the payload is base64-encoded and the character position at which it
/// starts.
pub fn parse_data_uri(s: &str) -> (r: Option<(bool, usize)>)
    ensures
        match r {
            Some((b64, start)) => data_uri_parse_spec(s@) == Some((b64, start as int)),
            None => data_uri_parse_spec(s@) is None,
        },
{
    proof {
        reveal_strlit("data:application/octet-stream");
        reveal_strlit("data:application/gltf-buffer");
        reveal_strlit(";base64,");
        reveal_strlit(",");
    }
    let m: usize;
    if starts_with_at(s, 0, "data:application/octet-stream") {
        m = 29;
    } else if starts_with_at(s, 0, "data:application/gltf-buffer") {
        m = 28;
    } else {
        return None;
    }
    if starts_with_at(s, m, ";base64,") {
        Some((true, m + 8))
    } else if starts_with_at(s, m, ",") {
        Some((false, m + 1))
    } else {
        None
    }
}

} // verus!
