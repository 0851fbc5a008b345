//! Uniform resolution of a typed index against an entity list.

use vstd::prelude::*;
use crate::error::Error;
use crate::index::GltfIndex;

verus! {

/// A list of document entities that a `GltfIndex<T>` can resolve against.
pub trait GltfList<T>: Sized {
    /// The entities, in document order.
    spec fn list(&self) -> Seq<T>;

    /// Resolve an optional reference: `None` for the undefined index, the
    /// entity for an in-range index, and the out-of-bounds error otherwise.
    fn gltf_index(&self, idx: GltfIndex<T>, list_name: &'static str) -> (r: Result<
        Option<&T>,
        Error,
    >)
        ensures
            match r {
                Ok(None) => idx@ is None,
                Ok(Some(t)) => idx@ is Some && idx.0 < self.list().len() && *t == self.list()[
                    idx.0 as int
                ],
                Err(e) => idx@ is Some && idx.0 >= self.list().len() && e == (Error::IdxOOB {
                    list_name,
                    idx: idx.0,
                    num: self.list().len() as usize,
                }),
            },
    ;

    /// Resolve a reference the document requires to be set: as
    /// `gltf_index`, but an undefined index is an error of its own.
    fn gltf_index_required(&self, idx: GltfIndex<T>, list_name: &'static str) -> (r: Result<
        &T,
        Error,
    >)
        ensures
            match r {
                Ok(t) => idx@ is Some && idx.0 < self.list().len() && *t == self.list()[
                    idx.0 as int
                ],
                Err(e) => (idx@ is None && e == (Error::IdxNotSet { list_name })) || (idx@ is Some
                    && idx.0 >= self.list().len() && e == (Error::IdxOOB {
                    list_name,
                    idx: idx.0,
                    num: self.list().len() as usize,
                })),
            },
    {
        match self.gltf_index(idx, list_name) {
            Ok(None) => Err(Error::IdxNotSet { list_name }),
            Ok(Some(data)) => Ok(data),
            Err(e) => Err(e),
        }
    }
}

impl<T> GltfList<T> for Vec<T> {
    open spec fn list(&self) -> Seq<T> {
        self@
    }

    fn gltf_index(&self, idx: GltfIndex<T>, list_name: &'static str) -> (r: Result<
        Option<&T>,
        Error,
    >) {
        match idx.idx_within(list_name, self.len()) {
            Err(e) => Err(e),
            Ok(None) => Ok(None),
            Ok(Some(i)) => Ok(Some(&self[i])),
        }
    }
}

} // verus!
