//! Errors returned by the tree and its components.
//!
//! Each executable error enum has a spec-level view (`...V`) over
//! mathematical sequences, so that contracts can speak of the exact error a
//! function returns.

use vstd::prelude::*;

verus! {

// ---------------------------------------------------------------------------
// Spec-level views
// ---------------------------------------------------------------------------

/// The shape of a node, used to report a method applied to the wrong shape.
pub enum NodeKindV {
    Value,
    Inner,
}

/// Spec view of [`DataError`].
pub enum DataErrorV {
    DatabaseDataNotFound(Seq<u8>),
    NullNodeDataNotFound(Seq<u8>),
    InMemoryDataNotFound(Seq<u8>),
    InMemoryNotSupported,
}

/// Spec view of [`NodeError`].
pub enum NodeErrorV {
    DecodeNodeEmptyValue,
    DecodeNodeNoData,
    DecodeNodeInvalidPrefix(u8),
    DecodeNodeHashFailed(Seq<u8>),
    DecodeNodeInvalidLength(int, int),
    InconsistentDefaultHashes,
    InvalidNodeType(NodeKindV, NodeKindV),
}

/// Spec view of [`KeyError`].
pub enum KeyErrorV {
    IncorrectKeySize(int, int),
    BitIndexOutOfBounds(int, int),
    LeafIndexOutOfBounds(u64, u64),
}

/// Spec view of [`TreeError`].
pub enum TreeErrorV {
    DataError(DataErrorV),
    NodeError(NodeErrorV),
    DepthTooLarge(int, int),
    KeyError(KeyErrorV),
}

// ---------------------------------------------------------------------------
// Executable errors
// ---------------------------------------------------------------------------

/// The shape of a node: a leaf holding a value, or an inner node holding two
/// child references.
#[derive(Debug, Clone, PartialEq, Eq, Structural)]
pub enum NodeKind {
    Value,
    Inner,
}

impl View for NodeKind {
    type V = NodeKindV;

    open spec fn view(&self) -> NodeKindV {
        match self {
            NodeKind::Value => NodeKindV::Value,
            NodeKind::Inner => NodeKindV::Inner,
        }
    }
}

/// Errors associated with the underlying data the tree is built on.
#[derive(Debug, Clone)]
pub enum DataError {
    /// No entry for this hash in the backing store.
    DatabaseDataNotFound(Vec<u8>),
    /// No entry for this hash in the null-node ladder: the ladder and the
    /// hasher disagree.
    NullNodeDataNotFound(Vec<u8>),
    /// No entry for this hash in the in-memory overlay.
    InMemoryDataNotFound(Vec<u8>),
    /// An in-memory reference reached an immutable tree, which has no overlay.
    InMemoryNotSupported,
}

impl View for DataError {
    type V = DataErrorV;

    open spec fn view(&self) -> DataErrorV {
        match self {
            DataError::DatabaseDataNotFound(h) => DataErrorV::DatabaseDataNotFound(h@),
            DataError::NullNodeDataNotFound(h) => DataErrorV::NullNodeDataNotFound(h@),
            DataError::InMemoryDataNotFound(h) => DataErrorV::InMemoryDataNotFound(h@),
            DataError::InMemoryNotSupported => DataErrorV::InMemoryNotSupported,
        }
    }
}

/// Errors associated with the nodes of the tree and their byte encoding.
#[derive(Debug, Clone)]
pub enum NodeError {
    /// A value-node encoding with no value bytes after the prefix.
    DecodeNodeEmptyValue,
    /// An empty byte string where a node encoding was expected.
    DecodeNodeNoData,
    /// A prefix byte that names no node shape.
    DecodeNodeInvalidPrefix(u8),
    /// A child-hash field of the wrong length.
    DecodeNodeHashFailed(Vec<u8>),
    /// An inner-node encoding of the wrong total length: (actual, expected).
    DecodeNodeInvalidLength(usize, usize),
    /// An inner node whose children are both default but with different
    /// hashes.
    InconsistentDefaultHashes,
    /// A method valid for one node shape applied to the other:
    /// (actual, expected).
    InvalidNodeType(NodeKind, NodeKind),
}

impl View for NodeError {
    type V = NodeErrorV;

    open spec fn view(&self) -> NodeErrorV {
        match self {
            NodeError::DecodeNodeEmptyValue => NodeErrorV::DecodeNodeEmptyValue,
            NodeError::DecodeNodeNoData => NodeErrorV::DecodeNodeNoData,
            NodeError::DecodeNodeInvalidPrefix(p) => NodeErrorV::DecodeNodeInvalidPrefix(*p),
            NodeError::DecodeNodeHashFailed(d) => NodeErrorV::DecodeNodeHashFailed(d@),
            NodeError::DecodeNodeInvalidLength(a, e) => NodeErrorV::DecodeNodeInvalidLength(
                *a as int,
                *e as int,
            ),
            NodeError::InconsistentDefaultHashes => NodeErrorV::InconsistentDefaultHashes,
            NodeError::InvalidNodeType(a, e) => NodeErrorV::InvalidNodeType(a@, e@),
        }
    }
}

/// Errors associated with the keys used to access the tree.
#[derive(Debug, Clone)]
pub enum KeyError {
    /// A key byte string of the wrong length: (expected, actual).
    IncorrectKeySize(usize, usize),
    /// A bit index at or beyond the key's width: (index, width).
    BitIndexOutOfBounds(usize, usize),
    /// An index at or beyond the tree's capacity: (index, capacity).
    LeafIndexOutOfBounds(u64, u64),
}

impl View for KeyError {
    type V = KeyErrorV;

    open spec fn view(&self) -> KeyErrorV {
        match self {
            KeyError::IncorrectKeySize(e, a) => KeyErrorV::IncorrectKeySize(*e as int, *a as int),
            KeyError::BitIndexOutOfBounds(i, m) => KeyErrorV::BitIndexOutOfBounds(
                *i as int,
                *m as int,
            ),
            KeyError::LeafIndexOutOfBounds(i, m) => KeyErrorV::LeafIndexOutOfBounds(*i, *m),
        }
    }
}

/// The error type returned by every tree operation, wrapping the error of the
/// component that failed.
#[derive(Debug, Clone)]
pub enum TreeError {
    DataError(DataError),
    NodeError(NodeError),
    /// A requested tree depth beyond the supported maximum:
    /// (requested, maximum).
    DepthTooLarge(usize, usize),
    KeyError(KeyError),
}

impl View for TreeError {
    type V = TreeErrorV;

    open spec fn view(&self) -> TreeErrorV {
        match self {
            TreeError::DataError(e) => TreeErrorV::DataError(e@),
            TreeError::NodeError(e) => TreeErrorV::NodeError(e@),
            TreeError::DepthTooLarge(d, m) => TreeErrorV::DepthTooLarge(*d as int, *m as int),
            TreeError::KeyError(e) => TreeErrorV::KeyError(e@),
        }
    }
}

} // verus!
