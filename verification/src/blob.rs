//! The external binary blob map: the caller-supplied mapping from an
//! optional external reference name to a byte payload.  The key `None`
//! stands for the default embedded payload.
//!
//! The map is built once by the caller and is read-only during resolution.

use vstd::prelude::*;
use crate::error::opt_string_view;

verus! {

/// A mapping from optional external name to owned bytes.  Later insertions
/// shadow earlier ones with the same name.
pub struct BlobMap {
    entries: Vec<(Option<String>, Vec<u8>)>,
}

/// The mapping an entry list denotes: each entry inserted in order, so the
/// last entry with a given name wins.
pub open spec fn map_of_entries(s: Seq<(Option<String>, Vec<u8>)>) -> Map<Option<Seq<char>>, Seq<u8>>
    decreases s.len(),
{
    if s.len() == 0 {
        Map::empty()
    } else {
        map_of_entries(s.drop_last()).insert(opt_string_view(s.last().0), s.last().1@)
    }
}

impl View for BlobMap {
    type V = Map<Option<Seq<char>>, Seq<u8>>;

    closed spec fn view(&self) -> Map<Option<Seq<char>>, Seq<u8>> {
        map_of_entries(self.entries@)
    }
}

/// Whether two optional names are the same name.
fn key_matches(a: &Option<String>, b: &Option<String>) -> (r: bool)
    ensures
        r == (opt_string_view(*a) == opt_string_view(*b)),
{
    match a {
        None => matches!(b, None),
        Some(x) => match b {
            None => false,
            Some(y) => *x == *y,
        },
    }
}

/// If some entry at or after position `i` carries the key, the denoted map
/// holds the value of the last such entry.
proof fn lemma_lookup_found(s: Seq<(Option<String>, Vec<u8>)>, k: Option<Seq<char>>, i: int)
    requires
        0 <= i < s.len(),
        opt_string_view(s[i].0) == k,
        forall|j: int| i < j < s.len() ==> opt_string_view(s[j].0) != k,
    ensures
        map_of_entries(s).contains_key(k),
        map_of_entries(s)[k] == s[i].1@,
    decreases s.len(),
{
    if i == s.len() - 1 {
    } else {
        lemma_lookup_found(s.drop_last(), k, i);
    }
}

/// If no entry carries the key, the denoted map does not hold it.
proof fn lemma_lookup_absent(s: Seq<(Option<String>, Vec<u8>)>, k: Option<Seq<char>>)
    requires
        forall|j: int| 0 <= j < s.len() ==> opt_string_view(s[j].0) != k,
    ensures
        !map_of_entries(s).contains_key(k),
    decreases s.len(),
{
    if s.len() > 0 {
        lemma_lookup_absent(s.drop_last(), k);
    }
}

impl BlobMap {
    /// An empty map.
    pub fn new() -> (r: Self)
        ensures
            r@ == Map::<Option<Seq<char>>, Seq<u8>>::empty(),
    {
        BlobMap { entries: Vec::new() }
    }

    /// Bind a name (or the default payload, for `None`) to bytes, shadowing
    /// any earlier binding of the same name.
    pub fn insert(&mut self, key: Option<String>, value: Vec<u8>)
        ensures
            final(self)@ == old(self)@.insert(opt_string_view(key), value@),
    {
        let ghost prev = self.entries@;
        let ghost k = opt_string_view(key);
        let ghost v = value@;
        self.entries.push((key, value));
        proof {
            assert(self.entries@.drop_last() =~= prev);
        }
    }

    /// Look a name up, or `None` when the map holds no binding for it.
    pub fn get<'a>(&'a self, key: &Option<String>) -> (r: Option<&'a Vec<u8>>)
        ensures
            match r {
                Some(v) => self@.contains_key(opt_string_view(*key)) && v@ == self@[opt_string_view(
                    *key,
                )],
                None => !self@.contains_key(opt_string_view(*key)),
            },
    {
        let mut i: usize = self.entries.len();
        while i > 0
            invariant
                i <= self.entries.len(),
                forall|j: int|
                    i <= j < self.entries@.len() ==> opt_string_view(self.entries@[j].0)
                        != opt_string_view(*key),
            decreases i,
        {
            i = i - 1;
            if key_matches(&self.entries[i].0, key) {
                proof {
                    lemma_lookup_found(self.entries@, opt_string_view(*key), i as int);
                }
                return Some(&self.entries[i].1);
            }
        }
        proof {
            lemma_lookup_absent(self.entries@, opt_string_view(*key));
        }
        None
    }
}

} // verus!
