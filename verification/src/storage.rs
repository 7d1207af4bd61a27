//! The in-memory overlay: a reference-counted map from a node's hash to the
//! node, holding every node created since the last commit.

use vstd::prelude::*;

use crate::bytemap::{alist_keys_distinct, alist_view, ByteMap};
use crate::node::{Node, NodeV};

verus! {

/// Increments a reference count, stopping at the largest representable
/// value rather than wrapping.
pub open spec fn sat_inc(c: usize) -> usize {
    if c == usize::MAX {
        c
    } else {
        (c + 1) as usize
    }
}

/// Every node of the overlay hangs under its own hash, is well formed, and
/// is held by at least one reference.
pub open spec fn storage_wf(m: Map<Seq<u8>, (NodeV, usize)>) -> bool {
    forall|h: Seq<u8>| #[trigger] m.contains_key(h) ==> m[h].0.wf() && m[h].0.spec_hash() == h
        && m[h].1 >= 1
}

/// The overlay of pending nodes: a map from a node's hash to the node and a
/// count of the references the tree holds on it.
pub struct NodeStorage {
    nodes: ByteMap<(Node, usize)>,
}

impl View for NodeStorage {
    type V = Map<Seq<u8>, (NodeV, usize)>;

    closed spec fn view(&self) -> Map<Seq<u8>, (NodeV, usize)> {
        self.nodes@
    }
}

impl NodeStorage {
    /// Creates an empty overlay.
    pub fn empty() -> (r: NodeStorage)
        ensures
            r@ == Map::<Seq<u8>, (NodeV, usize)>::empty(),
    {
        NodeStorage { nodes: ByteMap::new() }
    }

    /// The node stored under a hash, if any.
    pub fn get(&self, hash: &[u8]) -> (r: Option<&Node>)
        ensures
            match r {
                Some(n) => self@.contains_key(hash@) && n@ == self@[hash@].0,
                None => !self@.contains_key(hash@),
            },
    {
        match self.nodes.get(hash) {
            Some(entry) => Some(&entry.0),
            None => None,
        }
    }

    /// Inserts a node under its hash: a node already present has its count
    /// raised and is otherwise untouched; a new node enters with count 1.
    pub fn insert(&mut self, node: Node)
        requires
            node@.wf(),
        ensures
            ({
                let h = node@.spec_hash();
                if old(self)@.contains_key(h) {
                    final(self)@ == old(self)@.insert(
                        h,
                        (old(self)@[h].0, sat_inc(old(self)@[h].1)),
                    )
                } else {
                    final(self)@ == old(self)@.insert(h, (node@, 1usize))
                }
            }),
    {
        let hash = crate::node::clone_bytes(node.hash());
        match self.nodes.remove(hash.as_slice()) {
            Some((old_node, count)) => {
                let new_count = if count == usize::MAX {
                    count
                } else {
                    count + 1
                };
                self.nodes.insert(hash, (old_node, new_count));
                proof {
                    assert(final(self)@ =~= old(self)@.insert(
                        node@.spec_hash(),
                        (old(self)@[node@.spec_hash()].0, sat_inc(old(self)@[node@.spec_hash()].1)),
                    ));
                }
            },
            None => {
                self.nodes.insert(hash, (node, 1));
            },
        }
    }

    /// Drops one reference on a hash. The node is returned exactly when its
    /// last reference goes, at which point it leaves the overlay; dropping a
    /// hash the overlay does not hold is a no-op.
    pub fn remove(&mut self, hash: &[u8]) -> (r: Option<Node>)
        ensures
            match r {
                Some(n) => {
                    &&& old(self)@.contains_key(hash@)
                    &&& old(self)@[hash@].1 <= 1
                    &&& n@ == old(self)@[hash@].0
                    &&& final(self)@ == old(self)@.remove(hash@)
                },
                None => {
                    if old(self)@.contains_key(hash@) {
                        &&& old(self)@[hash@].1 > 1
                        &&& final(self)@ == old(self)@.insert(
                            hash@,
                            (old(self)@[hash@].0, (old(self)@[hash@].1 - 1) as usize),
                        )
                    } else {
                        final(self)@ == old(self)@
                    }
                },
            },
    {
        match self.nodes.remove(hash) {
            Some((node, count)) => {
                if count <= 1 {
                    Some(node)
                } else {
                    let hash_key = vstd::slice::slice_to_vec(hash);
                    self.nodes.insert(hash_key, (node, count - 1));
                    proof {
                        assert(final(self)@ =~= old(self)@.insert(
                            hash@,
                            (old(self)@[hash@].0, (old(self)@[hash@].1 - 1) as usize),
                        ));
                    }
                    None
                }
            },
            None => None,
        }
    }

    /// Empties the overlay, handing its entries out as a list with distinct
    /// keys that together describe the old contents.
    pub fn drain(&mut self) -> (r: Vec<(Vec<u8>, (Node, usize))>)
        ensures
            final(self)@ == Map::<Seq<u8>, (NodeV, usize)>::empty(),
            alist_keys_distinct(r@),
            alist_view(r@) == old(self)@,
    {
        self.nodes.drain()
    }

    /// Consumes the overlay and returns the map inside it.
    pub fn inner(self) -> (r: ByteMap<(Node, usize)>)
        ensures
            r@ == self@,
    {
        self.nodes
    }
}

} // verus!
