//! The backing store: a content-addressed, reference-counted byte map.
//!
//! The store keeps, for each hash, the bytes stored under it and a count of
//! how many times they were emplaced. `emplace` creates an entry or raises
//! its count; `remove` lowers the count and drops the entry when it reaches
//! zero. The tree preserves these counts across `commit`, so subtrees shared
//! with other trees over the same store neither vanish nor duplicate.

use vstd::prelude::*;

use crate::bytemap::{alist_keys_distinct, alist_view, ByteMap};
use crate::storage::sat_inc;

verus! {

/// A content-addressed, reference-counted in-memory byte store.
#[derive(Clone)]
pub struct Store {
    entries: ByteMap<(Vec<u8>, usize)>,
}

impl View for Store {
    type V = Map<Seq<u8>, (Seq<u8>, usize)>;

    closed spec fn view(&self) -> Map<Seq<u8>, (Seq<u8>, usize)> {
        self.entries@
    }
}

impl Store {
    /// Creates an empty store.
    pub fn new() -> (r: Store)
        ensures
            r@ == Map::<Seq<u8>, (Seq<u8>, usize)>::empty(),
    {
        Store { entries: ByteMap::new() }
    }

    /// The bytes stored under a hash, if any.
    pub fn get(&self, hash: &[u8]) -> (r: Option<Vec<u8>>)
        ensures
            match r {
                Some(d) => self@.contains_key(hash@) && d@ == self@[hash@].0,
                None => !self@.contains_key(hash@),
            },
    {
        match self.entries.get(hash) {
            Some(entry) => Some(crate::node::clone_bytes(&entry.0)),
            None => None,
        }
    }

    /// Stores bytes under a hash: a hash already present has its count
    /// raised and keeps the bytes it had; a new hash enters with count 1.
    pub fn emplace(&mut self, hash: Vec<u8>, value: Vec<u8>)
        ensures
            final(self)@ == (if old(self)@.contains_key(hash@) {
                old(self)@.insert(hash@, (old(self)@[hash@].0, sat_inc(old(self)@[hash@].1)))
            } else {
                old(self)@.insert(hash@, (value@, 1usize))
            }),
    {
        match self.entries.remove(hash.as_slice()) {
            Some((data, count)) => {
                let new_count = if count == usize::MAX {
                    count
                } else {
                    count + 1
                };
                self.entries.insert(hash, (data, new_count));
                proof {
                    assert(final(self)@ =~= old(self)@.insert(
                        hash@,
                        (old(self)@[hash@].0, sat_inc(old(self)@[hash@].1)),
                    ));
                }
            },
            None => {
                self.entries.insert(hash, (value, 1));
            },
        }
    }

    /// Drops one reference on a hash, removing the entry when the last goes;
    /// a hash the store does not hold is left alone.
    pub fn remove(&mut self, hash: &[u8])
        ensures
            final(self)@ == (if old(self)@.contains_key(hash@) {
                if old(self)@[hash@].1 > 1 {
                    old(self)@.insert(hash@, (old(self)@[hash@].0, (old(self)@[hash@].1 - 1) as usize))
                } else {
                    old(self)@.remove(hash@)
                }
            } else {
                old(self)@
            }),
    {
        match self.entries.remove(hash) {
            Some((data, count)) => {
                if count > 1 {
                    let hash_key = vstd::slice::slice_to_vec(hash);
                    self.entries.insert(hash_key, (data, count - 1));
                    proof {
                        assert(final(self)@ =~= old(self)@.insert(
                            hash@,
                            (old(self)@[hash@].0, (old(self)@[hash@].1 - 1) as usize),
                        ));
                    }
                }
            },
            None => {},
        }
    }

    /// The store's entries as a list with distinct keys that together
    /// describe its contents.
    pub fn entries(&self) -> (r: &Vec<(Vec<u8>, (Vec<u8>, usize))>)
        ensures
            alist_keys_distinct(r@),
            alist_view(r@) == self@,
    {
        self.entries.entry_list()
    }
}

} // verus!
