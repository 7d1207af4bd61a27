//! Keys: fixed-width byte strings addressing the leaves of the tree.
//!
//! A key of `D` bytes is viewed as `N = 8 * D` bits, indexed from the
//! most-significant bit of byte 0 down to the least-significant bit of byte
//! `D - 1`. Bit `i` selects the left child when it is 0 and the right child
//! when it is 1.

use vstd::prelude::*;

use crate::error::{KeyError, KeyErrorV};

verus! {

/// Bit `i` of a key, counted from the most-significant bit of byte 0.
pub open spec fn spec_key_bit(key: Seq<u8>, i: int) -> bool {
    ((key[i / 8] >> ((7 - (i % 8)) as u8)) & 1) == 1u8
}

/// Byte `j` of the big-endian encoding of `index` into `depth` bytes.
pub open spec fn spec_index_byte(index: u64, depth: int, j: int) -> u8 {
    ((index >> ((8 * (depth - 1 - j)) as u64)) & 0xff) as u8
}

/// A key of a fixed number of bytes.
#[derive(Debug)]
pub struct Key {
    bytes: Vec<u8>,
}

impl View for Key {
    type V = Seq<u8>;

    closed spec fn view(&self) -> Seq<u8> {
        self.bytes@
    }
}

impl Key {
    /// Every key is short enough that its width in bits fits a `usize`.
    #[verifier::type_invariant]
    spec fn inv(&self) -> bool {
        8 * self.bytes@.len() <= usize::MAX
    }

    /// Creates a key from a byte slice, which must be exactly `depth` bytes
    /// long.
    pub fn new(key: &[u8], depth: usize) -> (r: Result<Key, KeyError>)
        requires
            8 * depth <= usize::MAX,
        ensures
            match r {
                Ok(k) => key@.len() == depth && k@ == key@,
                Err(e) => key@.len() != depth && e@ == KeyErrorV::IncorrectKeySize(
                    depth as int,
                    key@.len() as int,
                ),
            },
    {
        if key.len() != depth {
            return Err(KeyError::IncorrectKeySize(depth, key.len()));
        }
        let mut bytes: Vec<u8> = Vec::new();
        bytes.extend_from_slice(key);
        Ok(Key { bytes })
    }

    /// Creates the all-zero key of the given width.
    pub fn zero(depth: usize) -> (r: Key)
        requires
            8 * depth <= usize::MAX,
        ensures
            r@ == Seq::new(depth as nat, |i: int| 0u8),
    {
        let bytes: Vec<u8> = vec![0u8; depth];
        proof {
            assert(bytes@ =~= Seq::new(depth as nat, |i: int| 0u8));
        }
        Key { bytes }
    }

    /// True when every byte of the key is zero.
    pub fn is_zero(&self) -> (r: bool)
        ensures
            r == (self@ == Seq::new(self@.len(), |i: int| 0u8)),
    {
        for i in 0..self.bytes.len()
            invariant
                forall|j: int| 0 <= j < i ==> self.bytes@[j] == 0u8,
        {
            if self.bytes[i] != 0 {
                proof {
                    assert(self@[i as int] != 0u8);
                    assert(self@ != Seq::new(self@.len(), |j: int| 0u8));
                }
                return false;
            }
        }
        proof {
            assert(self@ =~= Seq::new(self@.len(), |i: int| 0u8));
        }
        true
    }

    /// Encodes an index as a big-endian key of `depth` bytes. Fails exactly
    /// when the index needs more than `8 * depth` bits.
    pub fn from_index(index: u64, depth: usize) -> (r: Result<Key, KeyError>)
        requires
            depth <= 8,
        ensures
            match r {
                Ok(k) => {
                    &&& (depth == 8 || index < (1u64 << ((8 * depth) as u64)))
                    &&& k@.len() == depth
                    &&& forall|j: int| 0 <= j < depth ==> k@[j] == spec_index_byte(
                        index,
                        depth as int,
                        j,
                    )
                },
                Err(e) => {
                    &&& depth < 8
                    &&& index >= (1u64 << ((8 * depth) as u64))
                    &&& e@ == KeyErrorV::LeafIndexOutOfBounds(index, 1u64 << ((8 * depth) as u64))
                },
            },
    {
        if depth < 8 {
            let max: u64 = 1u64 << ((8 * depth) as u64);
            if index >= max {
                return Err(KeyError::LeafIndexOutOfBounds(index, max));
            }
        }
        let mut bytes: Vec<u8> = Vec::new();
        for j in 0..depth
            invariant
                depth <= 8,
                bytes@.len() == j,
                forall|p: int| 0 <= p < j ==> bytes@[p] == spec_index_byte(
                    index,
                    depth as int,
                    p,
                ),
        {
            let sh: u64 = (8 * (depth - 1 - j)) as u64;
            bytes.push(((index >> sh) & 0xff) as u8);
        }
        Ok(Key { bytes })
    }

    /// The bit at index `i`, from the most-significant bit of byte 0. Fails
    /// exactly when `i` is at or beyond the key's width in bits.
    pub fn bit(&self, i: usize) -> (r: Result<bool, KeyError>)
        ensures
            match r {
                Ok(b) => i < 8 * self@.len() && b == spec_key_bit(self@, i as int),
                Err(e) => i >= 8 * self@.len() && e@ == KeyErrorV::BitIndexOutOfBounds(
                    i as int,
                    8 * self@.len() as int,
                ),
            },
    {
        proof {
            use_type_invariant(self);
        }
        let byte_pos = i / 8;
        proof {
            vstd::arithmetic::div_mod::lemma_fundamental_div_mod(i as int, 8);
        }
        if byte_pos >= self.bytes.len() {
            return Err(KeyError::BitIndexOutOfBounds(i, 8 * self.bytes.len()));
        }
        let bit_pos = i % 8;
        let b = (self.bytes[byte_pos] >> ((7 - bit_pos) as u8)) & 1;
        Ok(b == 1)
    }

    /// The key's bytes.
    pub fn as_slice(&self) -> (r: &[u8])
        ensures
            r@ == self@,
    {
        self.bytes.as_slice()
    }

    /// An iterator over the key's bits, most-significant first.
    pub fn iter(&self) -> (r: KeyIter)
        ensures
            r.key_view() == self@,
            r.position() == 0,
    {
        proof {
            use_type_invariant(self);
        }
        KeyIter { bytes: self.bytes.clone(), element: 0 }
    }

    /// An iterator over the key's bits, starting at bit `i`.
    pub fn iter_from(&self, i: usize) -> (r: KeyIter)
        ensures
            r.key_view() == self@,
            r.position() == i,
    {
        proof {
            use_type_invariant(self);
        }
        KeyIter { bytes: self.bytes.clone(), element: i }
    }
}

/// An iterator over the bits of a key, most-significant first.
pub struct KeyIter {
    bytes: Vec<u8>,
    element: usize,
}

impl KeyIter {
    /// The iterator's key never widens beyond what a `usize` counts in bits.
    #[verifier::type_invariant]
    spec fn inv(&self) -> bool {
        8 * self.bytes@.len() <= usize::MAX
    }

    /// The key the iterator walks.
    pub closed spec fn key_view(&self) -> Seq<u8> {
        self.bytes@
    }

    /// The index of the next bit to hand out.
    pub closed spec fn position(&self) -> int {
        self.element as int
    }

    /// The next bit, or `None` when the key's bits are exhausted.
    pub fn next(&mut self) -> (r: Option<bool>)
        ensures
            final(self).key_view() == old(self).key_view(),
            match r {
                Some(b) => {
                    &&& old(self).position() < 8 * old(self).key_view().len()
                    &&& b == spec_key_bit(old(self).key_view(), old(self).position())
                    &&& final(self).position() == old(self).position() + 1
                },
                None => {
                    &&& old(self).position() >= 8 * old(self).key_view().len()
                    &&& final(self).position() == old(self).position()
                },
            },
    {
        proof {
            use_type_invariant(&*self);
        }
        if self.element >= 8 * self.bytes.len() {
            return None;
        }
        let i = self.element;
        let byte_pos = i / 8;
        proof {
            vstd::arithmetic::div_mod::lemma_fundamental_div_mod(i as int, 8);
        }
        let bit_pos = i % 8;
        let b = (self.bytes[byte_pos] >> ((7 - bit_pos) as u8)) & 1;
        self.element = i + 1;
        Some(b == 1)
    }
}

} // verus!
