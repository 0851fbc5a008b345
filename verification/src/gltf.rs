//! The document entities the packer reads, and the resolution of each
//! entity's declared byte source to concrete bytes.

use vstd::prelude::*;
use vstd::slice::{slice_subrange, slice_to_vec};
use vstd::string::StrSliceExecFns;
use vstd::utf8::encode_utf8;
use crate::blob::BlobMap;
use crate::error::{Error, ErrorView};
use crate::index::GltfIndex;
use crate::list::GltfList;
use crate::outside::{base64_decode, base64_decoding};
use crate::uri::{data_uri_parse_spec, data_uri_payload, parse_data_uri, GltfUri};

verus! {

/// A buffer: a binary payload of declared length, supplied inline as a data
/// URI, externally under its `uri` as a name, or (for the first buffer
/// only) as the caller's default embedded payload.
#[derive(Debug, PartialEq)]
pub struct GltfBuffer {
    /// The URI of the buffer, possibly a `data:` URI; `None` for the
    /// default embedded payload.
    pub uri: Option<GltfUri>,
    /// The declared length of the buffer in bytes.
    pub byte_length: usize,
    pub name: serde_json::Value,
    pub extensions: serde_json::Value,
    pub extras: serde_json::Value,
}

/// A view into a buffer: a byte range of it, with layout hints that pass
/// through packing unchanged.
#[derive(Debug, PartialEq)]
pub struct GltfBufferView {
    /// The buffer this view reads.
    pub buffer: GltfIndex<GltfBuffer>,
    /// The offset into the buffer in bytes.
    pub byte_offset: usize,
    /// The length of the view in bytes.
    pub byte_length: usize,
    /// The stride between vertex attributes; data is tightly packed when
    /// absent.
    pub byte_stride: Option<usize>,
    /// The intended GPU buffer type.
    pub target: Option<u64>,
    pub name: serde_json::Value,
    pub extensions: serde_json::Value,
    pub extras: serde_json::Value,
}

/// A sampler; the packer never reads one, but textures reference them.
#[derive(Debug, PartialEq)]
pub struct GltfSampler();

/// A texture: a sampler and an image, plus an optional compressed
/// alternative image carried by the recognized extension.
#[derive(Debug, PartialEq)]
pub struct GltfTexture {
    /// The sampler used by this texture, if any.
    pub sampler: GltfIndex<GltfSampler>,
    /// The plain (unoptimized) image used by this texture, if any.
    pub source: GltfIndex<GltfImage>,
    /// The compressed-image alternative carried under the recognized
    /// extension key's `source` field; undefined when the extension is
    /// absent.  Serialization splits this field out of `extensions` on the
    /// way in and merges it back on the way out.
    pub ktx_source: GltfIndex<GltfImage>,
    pub name: serde_json::Value,
    pub extensions: serde_json::Value,
    pub extras: serde_json::Value,
}

/// An image: pixel data referenced either by URI or by a buffer view plus
/// MIME type — exactly one of the two.
#[derive(Debug, PartialEq)]
pub struct GltfImage {
    /// The URI of the image, possibly a `data:` URI.  Must be absent when
    /// `buffer_view` is defined.
    pub uri: Option<GltfUri>,
    /// The image's media type; required when `buffer_view` is defined.
    pub mime_type: Option<String>,
    /// The buffer view holding the image bytes.  Must be undefined when
    /// `uri` is present.
    pub buffer_view: GltfIndex<GltfBufferView>,
    pub name: serde_json::Value,
    pub extensions: serde_json::Value,
    pub extras: serde_json::Value,
}

/// A resolved byte payload.  `V` holds bytes decoded or copied into fresh
/// storage; `S` holds bytes copied out of a longer-lived source.  Both are
/// read through the same byte-sequence view.
#[derive(Debug, PartialEq)]
pub enum U8VecOrSlice {
    V(Vec<u8>),
    S(Vec<u8>),
}

impl View for U8VecOrSlice {
    type V = Seq<u8>;

    open spec fn view(&self) -> Seq<u8> {
        match self {
            U8VecOrSlice::V(items) => items@,
            U8VecOrSlice::S(items) => items@,
        }
    }
}

/// Check a payload against a declared length: too short is an error, and a
/// longer payload is silently truncated to the declared length (trailing
/// alignment padding is legitimately discardable).
pub open spec fn truncated_bytes(bytes: Seq<u8>, expected: usize) -> Result<Seq<u8>, ErrorView> {
    if bytes.len() < expected {
        Err(
            ErrorView::BufferNotLongEnough {
                expected_bytes: expected as int,
                got_bytes: bytes.len() as int,
            },
        )
    } else {
        Ok(bytes.take(expected as int))
    }
}

impl U8VecOrSlice {
    /// Bytes drawn from a stored payload, truncated to the declared length.
    fn of_sliced_vec(v: &Vec<u8>, len: usize) -> (r: Result<U8VecOrSlice, Error>)
        ensures
            match r {
                Ok(d) => truncated_bytes(v@, len) == Ok::<Seq<u8>, ErrorView>(d@) && d is S,
                Err(e) => truncated_bytes(v@, len) == Err::<Seq<u8>, ErrorView>(e@),
            },
    {
        if len > v.len() {
            Err(Error::BufferNotLongEnough { expected_bytes: len, got_bytes: v.len() })
        } else {
            Ok(U8VecOrSlice::S(slice_to_vec(slice_subrange(v.as_slice(), 0, len))))
        }
    }

    /// Freshly decoded bytes, truncated to the declared length.
    fn of_owned_vec(v: Vec<u8>, len: usize) -> (r: Result<U8VecOrSlice, Error>)
        ensures
            match r {
                Ok(d) => truncated_bytes(v@, len) == Ok::<Seq<u8>, ErrorView>(d@) && d is V,
                Err(e) => truncated_bytes(v@, len) == Err::<Seq<u8>, ErrorView>(e@),
            },
    {
        if len > v.len() {
            Err(Error::BufferNotLongEnough { expected_bytes: len, got_bytes: v.len() })
        } else {
            let mut v = v;
            v.truncate(len);
            Ok(U8VecOrSlice::V(v))
        }
    }

    pub fn len(&self) -> (r: usize)
        ensures
            r == self@.len(),
    {
        match self {
            U8VecOrSlice::V(items) => items.len(),
            U8VecOrSlice::S(items) => items.len(),
        }
    }

    /// The resolved bytes, as owned storage.
    pub fn into_vec(self) -> (r: Vec<u8>)
        ensures
            r@ == self@,
    {
        match self {
            U8VecOrSlice::V(items) => items,
            U8VecOrSlice::S(items) => items,
        }
    }

    /// The resolved bytes, as a slice.
    pub fn as_slice(&self) -> (r: &[u8])
        ensures
            r@ == self@,
    {
        match self {
            U8VecOrSlice::V(items) => items.as_slice(),
            U8VecOrSlice::S(items) => items.as_slice(),
        }
    }
}

/// What a URI resolves to, before any declared-length check: the decoded
/// payload of a base64 data URI, the literal payload bytes of a plain data
/// URI, or the blob-map entry the URI names.
pub open spec fn uri_bytes_spec(u: Seq<char>, m: Map<Option<Seq<char>>, Seq<u8>>) -> Result<
    Seq<u8>,
    ErrorView,
> {
    match data_uri_parse_spec(u) {
        Some(p) => if p.0 {
            match base64_decoding(data_uri_payload(u, p.1)) {
                Some(d) => Ok(d),
                None => Err(ErrorView::BufferUriBadBase64),
            }
        } else {
            Ok(encode_utf8(data_uri_payload(u, p.1)))
        },
        None => if m.contains_key(Some(u)) {
            Ok(m[Some(u)])
        } else {
            Err(ErrorView::BufferUriMissingData(Some(u)))
        },
    }
}

/// What a buffer at document position `idx` resolves to: its URI's bytes
/// truncated to the declared length, or — with no URI, and only at position
/// 0 — the default embedded payload.
pub open spec fn buffer_data_spec(
    b: GltfBuffer,
    idx: int,
    m: Map<Option<Seq<char>>, Seq<u8>>,
) -> Result<Seq<u8>, ErrorView> {
    match b.uri {
        None => if idx == 0 {
            if m.contains_key(None) {
                truncated_bytes(m[None], b.byte_length)
            } else {
                Err(ErrorView::BufferUriMissingData(None))
            }
        } else {
            Err(ErrorView::BufferHadNoUri(idx))
        },
        Some(u) => match uri_bytes_spec(u@, m) {
            Ok(d) => truncated_bytes(d, b.byte_length),
            Err(e) => Err(e),
        },
    }
}

/// Resolve a URI to bytes: decode a base64 data URI's payload, take a plain
/// data URI's payload literally, or look any other URI up in the blob map.
fn resolve_uri_bytes(uri: &GltfUri, map: &BlobMap) -> (r: Result<Vec<u8>, Error>)
    ensures
        match r {
            Ok(d) => uri_bytes_spec(uri@, map@) == Ok::<Seq<u8>, ErrorView>(d@),
            Err(e) => uri_bytes_spec(uri@, map@) == Err::<Seq<u8>, ErrorView>(e@),
        },
{
    let s = uri.0.as_str();
    match parse_data_uri(s) {
        Some((is_b64, start)) => {
            proof {
                reveal_strlit("data:application/octet-stream");
                reveal_strlit("data:application/gltf-buffer");
                reveal_strlit(";base64,");
                reveal_strlit(",");
                assert(start <= s@.len());
            }
            let payload = s.substring_char(start, s.unicode_len());
            if is_b64 {
                match base64_decode(payload) {
                    Some(decoded) => Ok(decoded),
                    None => Err(Error::BufferUriBadBase64),
                }
            } else {
                Ok(payload.as_bytes_vec())
            }
        },
        None => {
            match map.get(&Some(uri.0.clone())) {
                Some(data) => Ok(slice_to_vec(data.as_slice())),
                None => Err(Error::BufferUriMissingData(Some(uri.0.clone()))),
            }
        },
    }
}

impl GltfBuffer {
    /// Resolve this buffer, at document position `idx`, to its bytes.
    pub fn dump_data(&self, idx: usize, map: &BlobMap) -> (r: Result<U8VecOrSlice, Error>)
        ensures
            match r {
                Ok(d) => buffer_data_spec(*self, idx as int, map@) == Ok::<Seq<u8>, ErrorView>(d@),
                Err(e) => buffer_data_spec(*self, idx as int, map@) == Err::<Seq<u8>, ErrorView>(
                    e@,
                ),
            },
    {
        match &self.uri {
            None => {
                if idx == 0 {
                    match map.get(&None) {
                        Some(data) => U8VecOrSlice::of_sliced_vec(data, self.byte_length),
                        None => Err(Error::BufferUriMissingData(None)),
                    }
                } else {
                    Err(Error::BufferHadNoUri(idx))
                }
            },
            Some(uri) => {
                match resolve_uri_bytes(uri, map) {
                    Ok(bytes) => U8VecOrSlice::of_owned_vec(bytes, self.byte_length),
                    Err(e) => Err(e),
                }
            },
        }
    }
}

/// The sequence of byte payloads a list of resolved sources denotes.
pub open spec fn datas_view(datas: Seq<U8VecOrSlice>) -> Seq<Seq<u8>> {
    Seq::new(datas.len(), |i: int| datas[i]@)
}

/// What a buffer view carves out of the resolved buffers: the exact
/// sub-range, or an error when the referenced buffer is missing or the
/// range runs past its end.
pub open spec fn view_slice_spec(v: GltfBufferView, datas: Seq<Seq<u8>>) -> Result<
    Seq<u8>,
    ErrorView,
> {
    match v.buffer@ {
        None => Err(ErrorView::IdxNotSet { list_name: "buffers"@ }),
        Some(b) => if b >= datas.len() {
            Err(ErrorView::IdxOOB { list_name: "buffers"@, idx: b, num: datas.len() as int }  )
        } else if v.byte_offset + v.byte_length > datas[b].len() {
            Err(
                ErrorView::BufferViewSizeOOB {
                    buffer_len: datas[b].len() as int,
                    buffer_view_off: v.byte_offset as int,
                    buffer_view_len: v.byte_length as int,
                },
            )
        } else {
            Ok(datas[b].subrange(v.byte_offset as int, v.byte_offset + v.byte_length))
        },
    }
}

impl GltfBufferView {
    /// Slice this view's byte range out of the resolved buffers.
    pub fn slice_from<'a>(&self, buffer_datas: &'a Vec<U8VecOrSlice>) -> (r: Result<&'a [u8], Error>)
        ensures
            match r {
                Ok(s) => view_slice_spec(*self, datas_view(buffer_datas@)) == Ok::<
                    Seq<u8>,
                    ErrorView,
                >(s@),
                Err(e) => view_slice_spec(*self, datas_view(buffer_datas@)) == Err::<
                    Seq<u8>,
                    ErrorView,
                >(e@),
            },
    {
        let buffer = match buffer_datas.gltf_index_required(self.buffer.reinterpret(), "buffers") {
            Ok(b) => b,
            Err(e) => return Err(e),
        };
        let blen = buffer.len();
        if self.byte_offset > blen || self.byte_length > blen - self.byte_offset {
            Err(
                Error::BufferViewSizeOOB {
                    buffer_len: blen,
                    buffer_view_off: self.byte_offset,
                    buffer_view_len: self.byte_length,
                },
            )
        } else {
            Ok(slice_subrange(buffer.as_slice(), self.byte_offset, self.byte_offset + self.byte_length))
        }
    }
}

/// What an image resolves to: its URI's bytes in full (no declared-length
/// truncation), or its buffer view's range — exactly one of the two modes
/// must be present.
pub open spec fn image_data_spec(
    img: GltfImage,
    views: Seq<GltfBufferView>,
    datas: Seq<Seq<u8>>,
    m: Map<Option<Seq<char>>, Seq<u8>>,
) -> Result<Seq<u8>, ErrorView> {
    match img.uri {
        Some(u) => if img.buffer_view@ is None {
            uri_bytes_spec(u@, m)
        } else {
            Err(
                ErrorView::ImageNeedsDataUriXorBufferView {
                    uri: Some(u@),
                    buffer_view: img.buffer_view@,
                },
            )
        },
        None => match img.buffer_view@ {
            Some(bv) => if bv >= views.len() {
                Err(
                    ErrorView::IdxOOB {
                        list_name: "bufferViews"@,
                        idx: bv,
                        num: views.len() as int,
                    },
                )
            } else {
                view_slice_spec(views[bv], datas)
            },
            None => Err(
                ErrorView::ImageNeedsDataUriXorBufferView { uri: None, buffer_view: None },
            ),
        },
    }
}

impl GltfImage {
    /// Resolve this image to its bytes, from exactly one of its two source
    /// modes.
    pub fn dump_data(
        &self,
        buffer_views: &Vec<GltfBufferView>,
        buffer_datas: &Vec<U8VecOrSlice>,
        map: &BlobMap,
    ) -> (r: Result<U8VecOrSlice, Error>)
        ensures
            match r {
                Ok(d) => image_data_spec(
                    *self,
                    buffer_views@,
                    datas_view(buffer_datas@),
                    map@,
                ) == Ok::<Seq<u8>, ErrorView>(d@),
                Err(e) => image_data_spec(
                    *self,
                    buffer_views@,
                    datas_view(buffer_datas@),
                    map@,
                ) == Err::<Seq<u8>, ErrorView>(e@),
            },
    {
        match (&self.uri, self.buffer_view.is_undefined()) {
            (Some(uri), true) => {
                match resolve_uri_bytes(uri, map) {
                    Ok(bytes) => Ok(U8VecOrSlice::V(bytes)),
                    Err(e) => Err(e),
                }
            },
            (None, false) => {
                let view = match buffer_views.gltf_index_required(self.buffer_view, "bufferViews") {
                    Ok(v) => v,
                    Err(e) => return Err(e),
                };
                match view.slice_from(buffer_datas) {
                    Ok(slice) => Ok(U8VecOrSlice::S(slice_to_vec(slice))),
                    Err(e) => Err(e),
                }
            },
            _ => Err(
                Error::ImageNeedsDataUriXorBufferView {
                    uri: match &self.uri {
                        Some(u) => Some(u.0.clone()),
                        None => None,
                    },
                    buffer_view: self.buffer_view,
                },
            ),
        }
    }
}

} // verus!
