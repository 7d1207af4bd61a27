//! Nodes of the tree and their canonical byte encoding.
//!
//! A node is either a leaf holding a value, or an inner node holding two
//! child references. A child reference tags the child's hash with its
//! residence: the backing database, the in-memory overlay, or the null-node
//! ladder of default subtrees.

use vstd::prelude::*;

use crate::error::{NodeError, NodeErrorV, NodeKind};
use crate::hasher::{hash_bytes, hash_of, hash_pair, HASH_LENGTH};

verus! {

// ---------------------------------------------------------------------------
// Child selection
// ---------------------------------------------------------------------------

/// Selects a child of an inner node.
#[derive(Debug, Clone, Copy, PartialEq, Eq, Structural)]
pub enum ChildSelector {
    Left,
    Right,
}

impl ChildSelector {
    /// The selector a key bit picks: `Left` for 0, `Right` for 1.
    pub fn new(child: bool) -> (r: ChildSelector)
        ensures
            r == (if child {
                ChildSelector::Right
            } else {
                ChildSelector::Left
            }),
    {
        if child {
            ChildSelector::Right
        } else {
            ChildSelector::Left
        }
    }

    /// The selector of the other child.
    pub fn sibling(&self) -> (r: ChildSelector)
        ensures
            r == (if *self == ChildSelector::Left {
                ChildSelector::Right
            } else {
                ChildSelector::Left
            }),
    {
        match self {
            ChildSelector::Left => ChildSelector::Right,
            ChildSelector::Right => ChildSelector::Left,
        }
    }
}

// ---------------------------------------------------------------------------
// Spec-level node model
// ---------------------------------------------------------------------------

/// Spec view of [`NodeHash`]: a node hash tagged with its residence.
pub enum NodeHashV {
    InMemory(Seq<u8>),
    Database(Seq<u8>),
    Default(Seq<u8>),
}

impl NodeHashV {
    /// The hash, whatever its residence.
    pub open spec fn spec_hash(self) -> Seq<u8> {
        match self {
            NodeHashV::InMemory(h) => h,
            NodeHashV::Database(h) => h,
            NodeHashV::Default(h) => h,
        }
    }

    /// True of a reference into the null-node ladder.
    pub open spec fn is_default(self) -> bool {
        self is Default
    }
}

/// Spec view of [`Node`].
pub enum NodeV {
    Value { hash: Seq<u8>, value: Seq<u8> },
    Inner { hash: Seq<u8>, left: NodeHashV, right: NodeHashV },
}

impl NodeV {
    /// The node's own hash.
    pub open spec fn spec_hash(self) -> Seq<u8> {
        match self {
            NodeV::Value { hash, .. } => hash,
            NodeV::Inner { hash, .. } => hash,
        }
    }

    /// The child reference a selector picks; meaningful for inner nodes.
    pub open spec fn spec_child(self, sel: ChildSelector) -> NodeHashV
        recommends
            self is Inner,
    {
        match self {
            NodeV::Inner { left, right, .. } => if sel == ChildSelector::Left {
                left
            } else {
                right
            },
            NodeV::Value { hash, .. } => NodeHashV::Default(hash),
        }
    }

    /// An empty leaf, or an inner node both of whose children are default.
    pub open spec fn is_default(self) -> bool {
        match self {
            NodeV::Value { value, .. } => value.len() == 0,
            NodeV::Inner { left, right, .. } => left.is_default() && right.is_default(),
        }
    }

    /// The hash link alone: a leaf's hash is the digest of its value; an
    /// inner node's hash is the digest of its children's hashes.
    pub open spec fn hash_linked(self) -> bool {
        match self {
            NodeV::Value { hash, value } => hash == hash_of(value),
            NodeV::Inner { hash, left, right } => hash == hash_of(
                left.spec_hash() + right.spec_hash(),
            ),
        }
    }

    /// Hash consistency: a leaf's hash is the digest of its value; an inner
    /// node's hash is the digest of its children's hashes.
    pub open spec fn wf(self) -> bool {
        match self {
            NodeV::Value { hash, value } => hash == hash_of(value) && hash.len() == HASH_LENGTH,
            NodeV::Inner { hash, left, right } => {
                &&& hash == hash_of(left.spec_hash() + right.spec_hash())
                &&& hash.len() == HASH_LENGTH
                &&& left.spec_hash().len() == HASH_LENGTH
                &&& right.spec_hash().len() == HASH_LENGTH
            },
        }
    }
}

// ---------------------------------------------------------------------------
// Executable node types
// ---------------------------------------------------------------------------

/// A node hash tagged with where the node lives.
#[derive(Debug)]
pub enum NodeHash {
    /// The node lives only in the mutable tree's overlay.
    InMemory(Vec<u8>),
    /// The node is persisted in the backing store.
    Database(Vec<u8>),
    /// The node is an all-empty subtree, resolved by the null-node ladder.
    Default(Vec<u8>),
}

impl View for NodeHash {
    type V = NodeHashV;

    open spec fn view(&self) -> NodeHashV {
        match self {
            NodeHash::InMemory(h) => NodeHashV::InMemory(h@),
            NodeHash::Database(h) => NodeHashV::Database(h@),
            NodeHash::Default(h) => NodeHashV::Default(h@),
        }
    }
}

impl Clone for NodeHash {
    /// Clones the reference, bytes and tag alike.
    fn clone(&self) -> (r: Self)
        ensures
            r@ == self@,
    {
        match self {
            NodeHash::InMemory(h) => NodeHash::InMemory(clone_bytes(h)),
            NodeHash::Database(h) => NodeHash::Database(clone_bytes(h)),
            NodeHash::Default(h) => NodeHash::Default(clone_bytes(h)),
        }
    }
}

/// Clones a byte vector.
pub fn clone_bytes(v: &Vec<u8>) -> (r: Vec<u8>)
    ensures
        r@ == v@,
{
    let mut out: Vec<u8> = Vec::new();
    out.extend_from_slice(v.as_slice());
    proof {
        assert(out@ =~= v@);
    }
    out
}

impl NodeHash {
    /// The inner hash, whatever its residence.
    pub fn hash(&self) -> (r: &Vec<u8>)
        ensures
            r@ == self@.spec_hash(),
    {
        match self {
            NodeHash::InMemory(h) => h,
            NodeHash::Database(h) => h,
            NodeHash::Default(h) => h,
        }
    }

    /// True of a reference into the null-node ladder.
    pub fn is_default(&self) -> (r: bool)
        ensures
            r == self@.is_default(),
    {
        matches!(self, NodeHash::Default(_))
    }
}

/// A node: a leaf holding a value, or an inner node holding two child
/// references.
#[derive(Debug)]
pub enum Node {
    Value { hash: Vec<u8>, value: Vec<u8> },
    Inner { hash: Vec<u8>, left: NodeHash, right: NodeHash },
}

impl View for Node {
    type V = NodeV;

    open spec fn view(&self) -> NodeV {
        match self {
            Node::Value { hash, value } => NodeV::Value { hash: hash@, value: value@ },
            Node::Inner { hash, left, right } => NodeV::Inner {
                hash: hash@,
                left: left@,
                right: right@,
            },
        }
    }
}

impl Clone for Node {
    /// Clones the node, hash and contents alike.
    fn clone(&self) -> (r: Self)
        ensures
            r@ == self@,
    {
        match self {
            Node::Value { hash, value } => Node::Value {
                hash: clone_bytes(hash),
                value: clone_bytes(value),
            },
            Node::Inner { hash, left, right } => Node::Inner {
                hash: clone_bytes(hash),
                left: left.clone(),
                right: right.clone(),
            },
        }
    }
}

impl Node {
    /// Constructs a leaf node over the given value; its hash is the value's
    /// digest.
    pub fn new_value(value: &[u8]) -> (r: Node)
        ensures
            r@ == (NodeV::Value { hash: hash_of(value@), value: value@ }),
            r@.wf(),
    {
        let hash = hash_bytes(value);
        let mut v: Vec<u8> = Vec::new();
        v.extend_from_slice(value);
        proof {
            assert(v@ =~= value@);
        }
        Node::Value { hash, value: v }
    }

    /// Constructs an inner node over the given children; its hash is the
    /// digest of their concatenated hashes. Fails exactly when both children
    /// are default with different hashes.
    pub fn new_inner(left: NodeHash, right: NodeHash) -> (r: Result<Node, NodeError>)
        requires
            left@.spec_hash().len() == HASH_LENGTH,
            right@.spec_hash().len() == HASH_LENGTH,
        ensures
            match r {
                Ok(n) => {
                    &&& !(left@.is_default() && right@.is_default() && left@.spec_hash()
                        != right@.spec_hash())
                    &&& n@ == (NodeV::Inner {
                        hash: hash_of(left@.spec_hash() + right@.spec_hash()),
                        left: left@,
                        right: right@,
                    })
                    &&& n@.wf()
                },
                Err(e) => {
                    &&& left@.is_default() && right@.is_default() && left@.spec_hash()
                        != right@.spec_hash()
                    &&& e@ == NodeErrorV::InconsistentDefaultHashes
                },
            },
    {
        if left.is_default() && right.is_default() && !crate::bytemap::bytes_eq(
            left.hash().as_slice(),
            right.hash().as_slice(),
        ) {
            return Err(NodeError::InconsistentDefaultHashes);
        }
        let hash = hash_pair(left.hash().as_slice(), right.hash().as_slice());
        Ok(Node::Inner { hash, left, right })
    }

    /// The child reference a selector picks. Fails exactly on a leaf node.
    pub fn child_hash(&self, child: &ChildSelector) -> (r: Result<&NodeHash, NodeError>)
        ensures
            match r {
                Ok(h) => self@ is Inner && h@ == self@.spec_child(*child),
                Err(e) => self@ is Value && e@ == NodeErrorV::InvalidNodeType(
                    crate::error::NodeKindV::Value,
                    crate::error::NodeKindV::Inner,
                ),
            },
    {
        match self {
            Node::Value { .. } => Err(NodeError::InvalidNodeType(NodeKind::Value, NodeKind::Inner)),
            Node::Inner { left, right, .. } => match child {
                ChildSelector::Left => Ok(left),
                ChildSelector::Right => Ok(right),
            },
        }
    }

    /// The value of a leaf node. Fails exactly on an inner node.
    pub fn value(&self) -> (r: Result<&Vec<u8>, NodeError>)
        ensures
            match r {
                Ok(v) => self@ is Value && v@ == self@->Value_value,
                Err(e) => self@ is Inner && e@ == NodeErrorV::InvalidNodeType(
                    crate::error::NodeKindV::Inner,
                    crate::error::NodeKindV::Value,
                ),
            },
    {
        match self {
            Node::Value { value, .. } => Ok(value),
            Node::Inner { .. } => Err(NodeError::InvalidNodeType(NodeKind::Inner, NodeKind::Value)),
        }
    }

    /// The node's own hash.
    pub fn hash(&self) -> (r: &Vec<u8>)
        ensures
            r@ == self@.spec_hash(),
    {
        match self {
            Node::Value { hash, .. } => hash,
            Node::Inner { hash, .. } => hash,
        }
    }

    /// True of an empty leaf, and of an inner node both of whose children
    /// are default.
    pub fn is_default(&self) -> (r: bool)
        ensures
            r == self@.is_default(),
    {
        match self {
            Node::Value { value, .. } => value.len() == 0,
            Node::Inner { left, right, .. } => left.is_default() && right.is_default(),
        }
    }

    /// Replaces the selected child of an inner node and recomputes the
    /// node's hash. Fails exactly on a leaf node, which it leaves unchanged.
    pub fn set_child_hash(&mut self, child: &ChildSelector, child_hash: NodeHash) -> (r: Result<
        (),
        NodeError,
    >)
        requires
            child_hash@.spec_hash().len() == HASH_LENGTH,
            old(self)@ is Inner ==> old(self)@.spec_child(
                if *child == ChildSelector::Left {
                    ChildSelector::Right
                } else {
                    ChildSelector::Left
                },
            ).spec_hash().len() == HASH_LENGTH,
        ensures
            match r {
                Ok(()) => {
                    &&& old(self)@ is Inner
                    &&& ({
                        let l = if *child == ChildSelector::Left {
                            child_hash@
                        } else {
                            old(self)@->Inner_left
                        };
                        let rr = if *child == ChildSelector::Right {
                            child_hash@
                        } else {
                            old(self)@->Inner_right
                        };
                        final(self)@ == (NodeV::Inner {
                            hash: hash_of(l.spec_hash() + rr.spec_hash()),
                            left: l,
                            right: rr,
                        }) && final(self)@.wf()
                    })
                },
                Err(e) => {
                    &&& old(self)@ is Value
                    &&& final(self)@ == old(self)@
                    &&& e@ == NodeErrorV::InvalidNodeType(
                        crate::error::NodeKindV::Value,
                        crate::error::NodeKindV::Inner,
                    )
                },
            },
    {
        match self {
            Node::Value { .. } => Err(NodeError::InvalidNodeType(NodeKind::Value, NodeKind::Inner)),
            Node::Inner { hash, left, right } => {
                match child {
                    ChildSelector::Left => {
                        *left = child_hash;
                    },
                    ChildSelector::Right => {
                        *right = child_hash;
                    },
                }
                let new_hash = hash_pair(left.hash().as_slice(), right.hash().as_slice());
                *hash = new_hash;
                Ok(())
            },
        }
    }
}

// ---------------------------------------------------------------------------
// Canonical byte encoding
// ---------------------------------------------------------------------------
//
// | Prefix | Shape                                | Payload                  |
// |--------|--------------------------------------|--------------------------|
// | 0x00   | leaf                                 | value bytes              |
// | 0x01   | inner, both children present         | left hash :: right hash  |
// | 0x02   | inner, right child default           | left hash :: right hash  |
// | 0x03   | inner, left child default            | left hash :: right hash  |
//
// The node's own hash is never serialized; it is recomputed on decode.

/// The canonical encoding of a node.
pub open spec fn spec_encode(n: NodeV) -> Seq<u8> {
    match n {
        NodeV::Value { value, .. } => seq![0u8] + value,
        NodeV::Inner { left, right, .. } => {
            let prefix: u8 = if right.is_default() {
                2
            } else if left.is_default() {
                3
            } else {
                1
            };
            seq![prefix] + left.spec_hash() + right.spec_hash()
        },
    }
}

/// The node a byte string decodes to, or the exact error. Children of a
/// decoded inner node are marked database-resident unless the prefix marks
/// them default.
pub open spec fn spec_decode(data: Seq<u8>) -> Result<NodeV, NodeErrorV> {
    if data.len() == 0 {
        Err(NodeErrorV::DecodeNodeNoData)
    } else if data[0] == 0 {
        if data.len() == 1 {
            Err(NodeErrorV::DecodeNodeEmptyValue)
        } else {
            Ok(NodeV::Value { hash: hash_of(data.skip(1)), value: data.skip(1) })
        }
    } else if data.len() != 2 * HASH_LENGTH + 1 {
        Err(NodeErrorV::DecodeNodeInvalidLength(data.len() as int, 2 * HASH_LENGTH + 1))
    } else {
        let l = data.subrange(1, 1 + HASH_LENGTH as int);
        let r = data.subrange(1 + HASH_LENGTH as int, 1 + 2 * HASH_LENGTH as int);
        if data[0] == 1 {
            Ok(NodeV::Inner {
                hash: hash_of(l + r),
                left: NodeHashV::Database(l),
                right: NodeHashV::Database(r),
            })
        } else if data[0] == 2 {
            Ok(NodeV::Inner {
                hash: hash_of(l + r),
                left: NodeHashV::Database(l),
                right: NodeHashV::Default(r),
            })
        } else if data[0] == 3 {
            Ok(NodeV::Inner {
                hash: hash_of(l + r),
                left: NodeHashV::Default(l),
                right: NodeHashV::Database(r),
            })
        } else {
            Err(NodeErrorV::DecodeNodeInvalidPrefix(data[0]))
        }
    }
}

/// A node the store can round-trip: a leaf with a non-empty value, or an
/// inner node with no overlay-resident child and not both children default.
pub open spec fn spec_storable(n: NodeV) -> bool {
    match n {
        NodeV::Value { value, .. } => value.len() > 0,
        NodeV::Inner { left, right, .. } => {
            &&& !(left is InMemory)
            &&& !(right is InMemory)
            &&& !(left.is_default() && right.is_default())
        },
    }
}

/// Decodes a hash from a byte string, which must be exactly one digest long.
pub fn decode_hash(data: &[u8]) -> (r: Result<Vec<u8>, NodeError>)
    ensures
        match r {
            Ok(h) => data@.len() == HASH_LENGTH && h@ == data@,
            Err(e) => data@.len() != HASH_LENGTH && e@ == NodeErrorV::DecodeNodeHashFailed(data@),
        },
{
    if data.len() != HASH_LENGTH {
        return Err(NodeError::DecodeNodeHashFailed(vstd::slice::slice_to_vec(data)));
    }
    Ok(vstd::slice::slice_to_vec(data))
}

impl Node {
    /// Encodes the node canonically.
    pub fn encode(&self) -> (r: Vec<u8>)
        ensures
            r@ == spec_encode(self@),
    {
        match self {
            Node::Value { value, .. } => {
                let mut out: Vec<u8> = Vec::new();
                out.push(0);
                out.extend_from_slice(value.as_slice());
                proof {
                    assert(out@ =~= spec_encode(self@));
                }
                out
            },
            Node::Inner { left, right, .. } => {
                let mut out: Vec<u8> = Vec::new();
                if right.is_default() {
                    out.push(2);
                } else if left.is_default() {
                    out.push(3);
                } else {
                    out.push(1);
                }
                out.extend_from_slice(left.hash().as_slice());
                out.extend_from_slice(right.hash().as_slice());
                proof {
                    assert(out@ =~= spec_encode(self@));
                }
                out
            },
        }
    }

    /// Decodes a node from its canonical encoding, recomputing its hash.
    pub fn decode(data: &[u8]) -> (r: Result<Node, NodeError>)
        ensures
            match r {
                Ok(n) => spec_decode(data@) == Ok::<NodeV, NodeErrorV>(n@) && n@.wf(),
                Err(e) => spec_decode(data@) == Err::<NodeV, NodeErrorV>(e@),
            },
    {
        if data.len() == 0 {
            return Err(NodeError::DecodeNodeNoData);
        }
        let prefix = data[0];
        if prefix == 0 {
            if data.len() == 1 {
                return Err(NodeError::DecodeNodeEmptyValue);
            }
            let body = vstd::slice::slice_subrange(data, 1, data.len());
            proof {
                assert(body@ =~= data@.skip(1));
            }
            return Ok(Node::new_value(body));
        }
        let expected = 2 * HASH_LENGTH + 1;
        if data.len() != expected {
            return Err(NodeError::DecodeNodeInvalidLength(data.len(), expected));
        }
        let left_bytes = vstd::slice::slice_subrange(data, 1, 1 + HASH_LENGTH);
        let right_bytes = vstd::slice::slice_subrange(data, 1 + HASH_LENGTH, 1 + 2 * HASH_LENGTH);
        let left_hash = match decode_hash(left_bytes) {
            Ok(h) => h,
            Err(e) => {
                return Err(e);
            },
        };
        let right_hash = match decode_hash(right_bytes) {
            Ok(h) => h,
            Err(e) => {
                return Err(e);
            },
        };
        let built = if prefix == 1 {
            Node::new_inner(NodeHash::Database(left_hash), NodeHash::Database(right_hash))
        } else if prefix == 2 {
            Node::new_inner(NodeHash::Database(left_hash), NodeHash::Default(right_hash))
        } else if prefix == 3 {
            Node::new_inner(NodeHash::Default(left_hash), NodeHash::Database(right_hash))
        } else {
            return Err(NodeError::DecodeNodeInvalidPrefix(prefix));
        };
        match built {
            Ok(n) => Ok(n),
            Err(e) => {
                proof {
                    assert(false);
                }
                Err(e)
            },
        }
    }
}

/// What decoding guarantees of every node it produces: the recomputed hash
/// links to the contents, a leaf's value is non-empty, an inner node's
/// children are digest-sized and never overlay-resident nor both default.
pub open spec fn spec_decoded_shape(n: NodeV) -> bool {
    &&& n.hash_linked()
    &&& spec_storable(n)
    &&& (n is Inner ==> n->Inner_left.spec_hash().len() == HASH_LENGTH
        && n->Inner_right.spec_hash().len() == HASH_LENGTH)
}

/// Every node decoding produces has the decoded shape.
pub proof fn lemma_decode_shape(data: Seq<u8>)
    ensures
        spec_decode(data) matches Ok(n) ==> spec_decoded_shape(n),
{
}

/// The digest of an encoding after its prefix byte is the encoded node's
/// own hash, for hash-linked nodes.
pub proof fn lemma_encode_skip_hash(n: NodeV)
    requires
        n.hash_linked(),
    ensures
        spec_encode(n).len() > 0,
        hash_of(spec_encode(n).skip(1)) == n.spec_hash(),
{
    let e = spec_encode(n);
    match n {
        NodeV::Value { hash, value } => {
            assert(e.skip(1) =~= value);
        },
        NodeV::Inner { hash, left, right } => {
            assert(e.skip(1) =~= left.spec_hash() + right.spec_hash());
        },
    }
}

/// Codec round trip: decoding the encoding of a storable node of the
/// decoded shape gives the node back, its hash recomputed to the same
/// value. Well-formed storable nodes have that shape.
pub proof fn lemma_codec_round_trip(n: NodeV)
    requires
        spec_decoded_shape(n),
    ensures
        spec_decode(spec_encode(n)) == Ok::<NodeV, NodeErrorV>(n),
{
    let e = spec_encode(n);
    match n {
        NodeV::Value { hash, value } => {
            assert(e[0] == 0);
            assert(e.len() > 1);
            assert(e.skip(1) =~= value);
        },
        NodeV::Inner { hash, left, right } => {
            assert(e.len() == 2 * HASH_LENGTH + 1);
            assert(e.subrange(1, 1 + HASH_LENGTH as int) =~= left.spec_hash());
            assert(e.subrange(1 + HASH_LENGTH as int, 1 + 2 * HASH_LENGTH as int)
                =~= right.spec_hash());
            assert(e[0] != 0);
        },
    }
}

} // verus!
