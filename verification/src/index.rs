//! Typed references into the document's entity lists.

use vstd::prelude::*;
use core::marker::PhantomData;
use crate::error::Error;

verus! {

/// A reference into the document list holding entities of type `T`.
///
/// The raw value `usize::MAX` is a sentinel meaning "undefined": the
/// serialized document simply omits the field.  `T` is a compile-time tag
/// only; it keeps an index into one list from being confused with an index
/// into another.
#[derive(Debug, PartialEq, Eq)]
pub struct GltfIndex<T>(pub usize, pub PhantomData<T>);

impl<T> View for GltfIndex<T> {
    type V = Option<int>;

    /// An index denotes either no position (the sentinel) or a raw position.
    open spec fn view(&self) -> Option<int> {
        if self.0 == usize::MAX {
            None
        } else {
            Some(self.0 as int)
        }
    }
}

impl<T> GltfIndex<T> {
    /// Wrap a raw position; the range is not validated here.
    pub fn of(x: usize) -> (r: Self)
        ensures
            r.0 == x,
    {
        GltfIndex(x, PhantomData)
    }

    /// The sentinel index: references nothing.
    pub fn undefined() -> (r: Self)
        ensures
            r@ is None,
    {
        GltfIndex(usize::MAX, PhantomData)
    }

    pub fn is_undefined(&self) -> (r: bool)
        ensures
            r == (self@ is None),
    {
        self.0 == usize::MAX
    }

    pub fn is_defined(&self) -> (r: bool)
        ensures
            r == (self@ is Some),
    {
        !self.is_undefined()
    }

    pub fn raw_idx(&self) -> (r: usize)
        ensures
            r == self.0,
    {
        self.0
    }

    /// What `idx_within` returns: `None` for the sentinel, the position when
    /// it lies inside the list, and the out-of-bounds error otherwise.
    pub open spec fn resolve_spec(self, list_name: &'static str, list_len: usize) -> Result<
        Option<usize>,
        Error,
    > {
        match self@ {
            None => Ok(None),
            Some(i) => if i < list_len {
                Ok(Some(self.0))
            } else {
                Err(Error::IdxOOB { list_name, idx: self.0, num: list_len })
            },
        }
    }

    /// Resolve this index against a list of `list_len` entries.
    pub fn idx_within(&self, list_name: &'static str, list_len: usize) -> (r: Result<
        Option<usize>,
        Error,
    >)
        ensures
            r == self.resolve_spec(list_name, list_len),
    {
        if self.is_undefined() {
            Ok(None)
        } else if self.0 >= list_len {
            Err(Error::IdxOOB { list_name, idx: self.0, num: list_len })
        } else {
            Ok(Some(self.0))
        }
    }
}

impl<T> GltfIndex<T> {
    /// Reinterpret this index as an index into a related list of the same
    /// cardinality (a buffer index as an index into the list of resolved
    /// buffer byte sources).  This is an explicit, intentional
    /// reinterpretation, not a generic cast.
    pub fn reinterpret<U>(self) -> (r: GltfIndex<U>)
        ensures
            r.0 == self.0,
            r@ == self@,
    {
        GltfIndex(self.0, PhantomData)
    }
}

impl<T> From<usize> for GltfIndex<T> {
    fn from(value: usize) -> (r: Self)
        ensures
            r.0 == value,
    {
        GltfIndex::of(value)
    }
}

impl<T> vstd::std_specs::convert::FromSpecImpl<usize> for GltfIndex<T> {
    open spec fn obeys_from_spec() -> bool {
        true
    }

    open spec fn from_spec(v: usize) -> Self {
        GltfIndex(v, PhantomData)
    }
}

impl<T> Clone for GltfIndex<T> {
    fn clone(&self) -> (r: Self)
        ensures
            r == *self,
    {
        GltfIndex(self.0, PhantomData)
    }
}

impl<T> Copy for GltfIndex<T> {

}

impl<T> Default for GltfIndex<T> {
    /// An index defaults to the sentinel, matching a field absent from the
    /// serialized document.
    fn default() -> (r: Self)
        ensures
            r@ is None,
    {
        GltfIndex(usize::MAX, PhantomData)
    }
}

/// Every defined raw position below the list length resolves to exactly that
/// position, and every defined position at or past the length fails with the
/// out-of-bounds error carrying the position and the length.
pub proof fn lemma_defined_index_resolution<T>(
    idx: GltfIndex<T>,
    list_name: &'static str,
    list_len: usize,
)
    requires
        idx@ is Some,
    ensures
        idx.0 < list_len ==> idx.resolve_spec(list_name, list_len) == Ok::<Option<usize>, Error>(
            Some(idx.0),
        ),
        idx.0 >= list_len ==> idx.resolve_spec(list_name, list_len) == Err::<Option<usize>, Error>(
            Error::IdxOOB { list_name, idx: idx.0, num: list_len },
        ),
{
}

/// The undefined index resolves to `None` against a list of any length,
/// including an empty one.
pub proof fn lemma_undefined_index_resolution<T>(
    idx: GltfIndex<T>,
    list_name: &'static str,
    list_len: usize,
)
    requires
        idx@ is None,
    ensures
        idx.resolve_spec(list_name, list_len) == Ok::<Option<usize>, Error>(None),
{
}

} // verus!
