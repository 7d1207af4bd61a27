//! The null-node ladder: the canonical nodes of all-empty subtrees.
//!
//! Level 0 is an empty leaf, whose hash is the digest of the empty byte
//! string; each level above is an inner node whose children are both the
//! default subtree one level down. The top of the ladder is the root of the
//! empty tree.

use vstd::prelude::*;

use crate::bytemap::ByteMap;
use crate::hasher::{hash_bytes, hash_of, hash_pair, HASH_LENGTH};
use crate::node::{Node, NodeHash, NodeHashV, NodeV};

verus! {

/// The hash of the all-empty subtree of the given height.
pub open spec fn spec_default_hash(level: nat) -> Seq<u8>
    decreases level,
{
    if level == 0 {
        hash_of(Seq::empty())
    } else {
        hash_of(
            spec_default_hash((level - 1) as nat) + spec_default_hash((level - 1) as nat),
        )
    }
}

/// The canonical node of the all-empty subtree of the given height.
pub open spec fn spec_default_node(level: nat) -> NodeV {
    if level == 0 {
        NodeV::Value { hash: spec_default_hash(0), value: Seq::empty() }
    } else {
        NodeV::Inner {
            hash: spec_default_hash(level),
            left: NodeHashV::Default(spec_default_hash((level - 1) as nat)),
            right: NodeHashV::Default(spec_default_hash((level - 1) as nat)),
        }
    }
}

/// What the null-node ladder of a tree of the given depth (in bits) holds:
/// every default hash up to the top maps to a well-formed default node under
/// its own hash, and nothing else is in it.
pub open spec fn ladder_wf(m: Map<Seq<u8>, NodeV>, depth: nat) -> bool {
    &&& forall|l: nat| l <= depth ==> #[trigger] m.contains_key(spec_default_hash(l))
    &&& forall|k: Seq<u8>| #[trigger] m.contains_key(k) ==> m[k].wf() && m[k].spec_hash() == k
        && m[k].is_default()
    &&& forall|k: Seq<u8>| #[trigger] m.contains_key(k) ==> exists|l: nat|
        l <= depth && spec_default_hash(l) == k && m[k] == spec_default_node(l)
}

/// Builds the null-node ladder for a tree of the given depth in bits, and
/// the ladder's top hash: the root of the empty tree.
pub fn null_nodes(depth: usize) -> (r: (ByteMap<Node>, Vec<u8>))
    ensures
        r.1@ == spec_default_hash(depth as nat),
        r.1@.len() == HASH_LENGTH,
        ladder_wf(r.0@, depth as nat),
{
    let mut map: ByteMap<Node> = ByteMap::new();
    let empty: Vec<u8> = Vec::new();
    proof {
        assert(empty@ =~= Seq::<u8>::empty());
    }
    let mut current: Vec<u8> = hash_bytes(empty.as_slice());
    map.insert(
        crate::node::clone_bytes(&current),
        Node::Value { hash: crate::node::clone_bytes(&current), value: Vec::new() },
    );
    proof {
        assert(current@ == spec_default_hash(0));
        assert forall|k: Seq<u8>| #[trigger] map@.contains_key(k) implies exists|l: nat|
            l <= 0 && spec_default_hash(l) == k && map@[k] == spec_default_node(l) by {
            assert(k == spec_default_hash(0));
            let l0: nat = 0;
            assert(l0 <= 0 && spec_default_hash(l0) == k && map@[k] == spec_default_node(l0));
        }
        assert(ladder_wf(map@, 0));
    }
    for i in 0..depth
        invariant
            current@ == spec_default_hash(i as nat),
            current@.len() == HASH_LENGTH,
            ladder_wf(map@, i as nat),
    {
        let next = hash_pair(current.as_slice(), current.as_slice());
        let node = Node::Inner {
            hash: crate::node::clone_bytes(&next),
            left: NodeHash::Default(crate::node::clone_bytes(&current)),
            right: NodeHash::Default(current),
        };
        proof {
            assert(node@ == spec_default_node((i + 1) as nat));
            assert(node@.wf());
        }
        let ghost prev = map@;
        map.insert(crate::node::clone_bytes(&next), node);
        proof {
            assert forall|l: nat| l <= i + 1 implies #[trigger] map@.contains_key(
                spec_default_hash(l),
            ) by {
                if l <= i {
                    assert(prev.contains_key(spec_default_hash(l)));
                }
            }
            assert forall|k: Seq<u8>| #[trigger] map@.contains_key(k) implies exists|l: nat|
                l <= i + 1 && spec_default_hash(l) == k && map@[k] == spec_default_node(l) by {
                if k == spec_default_hash((i + 1) as nat) {
                    assert(spec_default_hash((i + 1) as nat) == k && map@[k] == spec_default_node(
                        (i + 1) as nat,
                    ));
                } else {
                    assert(prev.contains_key(k));
                    let l0 = choose|l: nat|
                        l <= i && spec_default_hash(l) == k && prev[k] == spec_default_node(l);
                    assert(l0 <= i + 1 && spec_default_hash(l0) == k && map@[k]
                        == spec_default_node(l0));
                }
            }
        }
        current = next;
    }
    (map, current)
}

} // verus!
