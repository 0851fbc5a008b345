//! Repacking of the binary payloads of a glTF-style asset document.
//!
//! The document references binary data through three layers: typed indices
//! into its entity lists, buffers whose bytes arrive inline (data URIs),
//! from an external blob map, or through a view into another buffer, and
//! buffer views that carve byte ranges out of those buffers.  This crate
//! resolves every reference to its exact byte range and repacks all buffer
//! views into one contiguous, 4-byte-aligned buffer, rewriting the view
//! offsets in the process.  It also collects the per-image re-encode jobs a
//! downstream transcoder consumes, deduplicating images shared by several
//! textures.

pub mod blob;
pub mod error;
pub mod gltf;
pub mod index;
pub mod jobs;
pub mod list;
pub mod outside;
pub mod pack;
pub mod uri;
