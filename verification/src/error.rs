//! The error taxonomy.  Every condition aborts the whole operation that hit
//! it; nothing is skipped or repaired.

use vstd::prelude::*;
use crate::gltf::GltfBufferView;
use crate::index::GltfIndex;

verus! {

/// Anything that can go wrong while resolving references and repacking
/// buffers.  Each variant carries the context needed to reproduce the
/// failure.
#[derive(Debug, PartialEq)]
pub enum Error {
    /// A buffer past position 0 declared no `uri`; only the first buffer may
    /// draw on the default embedded payload.
    BufferHadNoUri(usize),
    /// A buffer or image named an external payload (or, for `None`, the
    /// default embedded payload) that the blob map does not hold.
    BufferUriMissingData(Option<String>),
    /// A data URI carried a `;base64` marker but its payload is not valid
    /// standard base64.
    BufferUriBadBase64,
    /// The resolved payload is shorter than the buffer's declared length.
    BufferNotLongEnough { expected_bytes: usize, got_bytes: usize },
    /// A buffer view's offset plus length runs past the end of its buffer.
    BufferViewSizeOOB { buffer_len: usize, buffer_view_off: usize, buffer_view_len: usize },
    /// An index was undefined where the document requires one to be set.
    IdxNotSet { list_name: &'static str },
    /// An index points past the end of its list.
    IdxOOB { list_name: &'static str, idx: usize, num: usize },
    /// A document value expected to be a list is not one.
    ExpectedList { key: &'static str },
    /// An image must set exactly one of `uri` and `bufferView`; this one set
    /// both, or neither.
    ImageNeedsDataUriXorBufferView { uri: Option<String>, buffer_view: GltfIndex<GltfBufferView> },
    /// No known image signature matches the payload, and the image declared
    /// no MIME type of its own.
    ImageCouldntFindFormat,
    /// An image claimed to hold KTX2 data but its leading bytes are not the
    /// KTX2 signature.
    ImageClaimedKtx2ButWasNot,
    /// A texture references no image at all, neither plain nor compressed.
    ImageHasNoSources,
}

/// An `Option<String>` with the string abstracted to its characters.
pub open spec fn opt_string_view(s: Option<String>) -> Option<Seq<char>> {
    match s {
        None => None,
        Some(x) => Some(x@),
    }
}

/// The spec-level image of an `Error`: strings become character sequences
/// and indices their resolved positions, so that contracts can state which
/// error a computation yields without speaking of heap values.
pub enum ErrorView {
    BufferHadNoUri(int),
    BufferUriMissingData(Option<Seq<char>>),
    BufferUriBadBase64,
    BufferNotLongEnough { expected_bytes: int, got_bytes: int },
    BufferViewSizeOOB { buffer_len: int, buffer_view_off: int, buffer_view_len: int },
    IdxNotSet { list_name: Seq<char> },
    IdxOOB { list_name: Seq<char>, idx: int, num: int },
    ExpectedList { key: Seq<char> },
    ImageNeedsDataUriXorBufferView { uri: Option<Seq<char>>, buffer_view: Option<int> },
    ImageCouldntFindFormat,
    ImageClaimedKtx2ButWasNot,
    ImageHasNoSources,
}

impl View for Error {
    type V = ErrorView;

    open spec fn view(&self) -> ErrorView {
        match self {
            Error::BufferHadNoUri(idx) => ErrorView::BufferHadNoUri(*idx as int),
            Error::BufferUriMissingData(uri) => ErrorView::BufferUriMissingData(
                opt_string_view(*uri),
            ),
            Error::BufferUriBadBase64 => ErrorView::BufferUriBadBase64,
            Error::BufferNotLongEnough { expected_bytes, got_bytes } => {
                ErrorView::BufferNotLongEnough {
                    expected_bytes: *expected_bytes as int,
                    got_bytes: *got_bytes as int,
                }
            },
            Error::BufferViewSizeOOB { buffer_len, buffer_view_off, buffer_view_len } => {
                ErrorView::BufferViewSizeOOB {
                    buffer_len: *buffer_len as int,
                    buffer_view_off: *buffer_view_off as int,
                    buffer_view_len: *buffer_view_len as int,
                }
            },
            Error::IdxNotSet { list_name } => ErrorView::IdxNotSet { list_name: list_name@ },
            Error::IdxOOB { list_name, idx, num } => ErrorView::IdxOOB {
                list_name: list_name@,
                idx: *idx as int,
                num: *num as int,
            },
            Error::ExpectedList { key } => ErrorView::ExpectedList { key: key@ },
            Error::ImageNeedsDataUriXorBufferView { uri, buffer_view } => {
                ErrorView::ImageNeedsDataUriXorBufferView {
                    uri: opt_string_view(*uri),
                    buffer_view: buffer_view@,
                }
            },
            Error::ImageCouldntFindFormat => ErrorView::ImageCouldntFindFormat,
            Error::ImageClaimedKtx2ButWasNot => ErrorView::ImageClaimedKtx2ButWasNot,
            Error::ImageHasNoSources => ErrorView::ImageHasNoSources,
        }
    }
}

} // verus!
