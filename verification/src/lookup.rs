//! The spec-level description of node resolution and of the walk from the
//! root to a leaf, shared by the immutable and the mutable tree.

use vstd::prelude::*;

use crate::error::{DataErrorV, NodeErrorV, NodeKindV, TreeErrorV};
use crate::key::spec_key_bit;
use crate::node::{spec_decode, ChildSelector, NodeHashV, NodeV};

verus! {

/// How a node reference resolves to a node:
/// - an overlay reference reads the overlay, which an immutable tree does
///   not have;
/// - a database reference reads the store and decodes what it finds;
/// - a default reference reads the null-node ladder.
pub open spec fn spec_resolve(
    nh: NodeHashV,
    db: Map<Seq<u8>, (Seq<u8>, usize)>,
    overlay: Option<Map<Seq<u8>, (NodeV, usize)>>,
    ladder: Map<Seq<u8>, NodeV>,
) -> Result<NodeV, TreeErrorV> {
    match nh {
        NodeHashV::InMemory(h) => match overlay {
            None => Err(TreeErrorV::DataError(DataErrorV::InMemoryNotSupported)),
            Some(ov) => if ov.contains_key(h) {
                Ok(ov[h].0)
            } else {
                Err(TreeErrorV::DataError(DataErrorV::InMemoryDataNotFound(h)))
            },
        },
        NodeHashV::Database(h) => if db.contains_key(h) {
            match spec_decode(db[h].0) {
                Ok(n) => Ok(n),
                Err(e) => Err(TreeErrorV::NodeError(e)),
            }
        } else {
            Err(TreeErrorV::DataError(DataErrorV::DatabaseDataNotFound(h)))
        },
        NodeHashV::Default(h) => if ladder.contains_key(h) {
            Ok(ladder[h])
        } else {
            Err(TreeErrorV::DataError(DataErrorV::NullNodeDataNotFound(h)))
        },
    }
}

/// What a resolution adds to an attached recorder: the decoded node, on a
/// successful database resolution alone.
pub open spec fn spec_resolve_recorded(
    nh: NodeHashV,
    db: Map<Seq<u8>, (Seq<u8>, usize)>,
    overlay: Option<Map<Seq<u8>, (NodeV, usize)>>,
    ladder: Map<Seq<u8>, NodeV>,
) -> Map<Seq<u8>, NodeV> {
    match spec_resolve(nh, db, overlay, ladder) {
        Ok(n) => if nh is Database {
            Map::empty().insert(n.spec_hash(), n)
        } else {
            Map::empty()
        },
        Err(_) => Map::empty(),
    }
}

/// An attached recorder's contents after a read added `add`; an absent
/// recorder stays absent.
pub open spec fn spec_rec_after(
    rec: Option<Map<Seq<u8>, NodeV>>,
    add: Map<Seq<u8>, NodeV>,
) -> Option<Map<Seq<u8>, NodeV>> {
    match rec {
        None => None,
        Some(m) => Some(m.union_prefer_right(add)),
    }
}

/// Adding nothing to a recorder leaves it as it was.
pub proof fn lemma_rec_after_empty(rec: Option<Map<Seq<u8>, NodeV>>)
    ensures
        spec_rec_after(rec, Map::empty()) == rec,
{
    match rec {
        None => {},
        Some(m) => {
            assert(m.union_prefer_right(Map::empty()) =~= m);
        },
    }
}

/// Adding a single node to a recorder inserts it.
pub proof fn lemma_rec_after_single(m: Map<Seq<u8>, NodeV>, h: Seq<u8>, n: NodeV)
    ensures
        spec_rec_after(Some(m), Map::empty().insert(h, n)) == Some(m.insert(h, n)),
{
    assert(m.union_prefer_right(Map::empty().insert(h, n)) =~= m.insert(h, n));
}

/// Two additions in a row add their union.
pub proof fn lemma_rec_after_assoc(
    rec: Option<Map<Seq<u8>, NodeV>>,
    a: Map<Seq<u8>, NodeV>,
    b: Map<Seq<u8>, NodeV>,
)
    ensures
        spec_rec_after(spec_rec_after(rec, a), b) == spec_rec_after(rec, a.union_prefer_right(b)),
{
    match rec {
        None => {},
        Some(m) => {
            assert(m.union_prefer_right(a).union_prefer_right(b) =~= m.union_prefer_right(
                a.union_prefer_right(b),
            ));
        },
    }
}

/// Everything a walk from the root towards a leaf produces: its result (the
/// leaf node, or `None` on an early default child when no proof is wanted,
/// or the first error met), the sibling hashes pushed for a proof in
/// traversal order, and what the walk records.
pub struct WalkOutcome {
    pub result: Result<Option<NodeV>, TreeErrorV>,
    pub siblings: Seq<Seq<u8>>,
    pub recorded: Map<Seq<u8>, NodeV>,
}

/// The walk from `node` at bit position `i` down to the leaf: at each level
/// the bit of the key selects a child; a default child ends the walk with no
/// leaf unless a proof is wanted, in which case the walk pushes the sibling's
/// hash and descends even through default subtrees.
pub open spec fn spec_walk(
    key: Seq<u8>,
    i: int,
    node: NodeV,
    db: Map<Seq<u8>, (Seq<u8>, usize)>,
    overlay: Option<Map<Seq<u8>, (NodeV, usize)>>,
    ladder: Map<Seq<u8>, NodeV>,
    with_proof: bool,
) -> WalkOutcome
    decreases 8 * key.len() - i,
{
    if i < 0 || i >= 8 * key.len() {
        WalkOutcome { result: Ok(Some(node)), siblings: Seq::empty(), recorded: Map::empty() }
    } else {
        match node {
            NodeV::Value { .. } => WalkOutcome {
                result: Err(
                    TreeErrorV::NodeError(
                        NodeErrorV::InvalidNodeType(NodeKindV::Value, NodeKindV::Inner),
                    ),
                ),
                siblings: Seq::empty(),
                recorded: Map::empty(),
            },
            NodeV::Inner { .. } => {
                let sel = if spec_key_bit(key, i) {
                    ChildSelector::Right
                } else {
                    ChildSelector::Left
                };
                let sib = if sel == ChildSelector::Left {
                    ChildSelector::Right
                } else {
                    ChildSelector::Left
                };
                let child = node.spec_child(sel);
                if child.is_default() && !with_proof {
                    WalkOutcome { result: Ok(None), siblings: Seq::empty(), recorded: Map::empty() }
                } else {
                    let sibs = if with_proof {
                        seq![node.spec_child(sib).spec_hash()]
                    } else {
                        Seq::empty()
                    };
                    match spec_resolve(child, db, overlay, ladder) {
                        Err(e) => WalkOutcome {
                            result: Err(e),
                            siblings: Seq::empty(),
                            recorded: Map::empty(),
                        },
                        Ok(child_node) => {
                            let rec0 = spec_resolve_recorded(child, db, overlay, ladder);
                            let rest = spec_walk(
                                key,
                                i + 1,
                                child_node,
                                db,
                                overlay,
                                ladder,
                                with_proof,
                            );
                            WalkOutcome {
                                result: rest.result,
                                siblings: sibs + rest.siblings,
                                recorded: rec0.union_prefer_right(rest.recorded),
                            }
                        },
                    }
                }
            },
        }
    }
}

/// The whole read: resolve the root reference, then walk down by the key's
/// bits.
pub open spec fn spec_lookup_leaf(
    key: Seq<u8>,
    root: NodeHashV,
    db: Map<Seq<u8>, (Seq<u8>, usize)>,
    overlay: Option<Map<Seq<u8>, (NodeV, usize)>>,
    ladder: Map<Seq<u8>, NodeV>,
    with_proof: bool,
) -> WalkOutcome {
    match spec_resolve(root, db, overlay, ladder) {
        Err(e) => WalkOutcome { result: Err(e), siblings: Seq::empty(), recorded: Map::empty() },
        Ok(n) => {
            let rec0 = spec_resolve_recorded(root, db, overlay, ladder);
            let rest = spec_walk(key, 0, n, db, overlay, ladder, with_proof);
            WalkOutcome {
                result: rest.result,
                siblings: rest.siblings,
                recorded: rec0.union_prefer_right(rest.recorded),
            }
        },
    }
}

/// The views of a list of byte vectors.
pub open spec fn views_of(s: Seq<Vec<u8>>) -> Seq<Seq<u8>> {
    Seq::new(s.len(), |i: int| s[i]@)
}

/// One unfolding of [`spec_walk`] at an inner node, written out for use in
/// loop proofs.
pub proof fn lemma_walk_step(
    key: Seq<u8>,
    i: int,
    node: NodeV,
    db: Map<Seq<u8>, (Seq<u8>, usize)>,
    overlay: Option<Map<Seq<u8>, (NodeV, usize)>>,
    ladder: Map<Seq<u8>, NodeV>,
    with_proof: bool,
)
    requires
        0 <= i < 8 * key.len(),
        node is Inner,
    ensures
        ({
            let sel = if spec_key_bit(key, i) {
                ChildSelector::Right
            } else {
                ChildSelector::Left
            };
            let sibsel = if sel == ChildSelector::Left {
                ChildSelector::Right
            } else {
                ChildSelector::Left
            };
            let child = node.spec_child(sel);
            let w = spec_walk(key, i, node, db, overlay, ladder, with_proof);
            if child.is_default() && !with_proof {
                w.result == Ok::<Option<NodeV>, TreeErrorV>(None) && w.siblings == Seq::<
                    Seq<u8>,
                >::empty() && w.recorded == Map::<Seq<u8>, NodeV>::empty()
            } else {
                match spec_resolve(child, db, overlay, ladder) {
                    Err(e) => w.result == Err::<Option<NodeV>, TreeErrorV>(e) && w.siblings
                        == Seq::<Seq<u8>>::empty() && w.recorded == Map::<Seq<u8>, NodeV>::empty(),
                    Ok(cn) => {
                        let rest = spec_walk(key, i + 1, cn, db, overlay, ladder, with_proof);
                        &&& w.result == rest.result
                        &&& w.siblings == (if with_proof {
                            seq![node.spec_child(sibsel).spec_hash()]
                        } else {
                            Seq::<Seq<u8>>::empty()
                        }) + rest.siblings
                        &&& w.recorded == spec_resolve_recorded(
                            child,
                            db,
                            overlay,
                            ladder,
                        ).union_prefer_right(rest.recorded)
                    },
                }
            }
        }),
{
}

/// The number of siblings a successful walk pushes for a proof: one per
/// level walked.
pub proof fn lemma_walk_proof_len(
    key: Seq<u8>,
    i: int,
    node: NodeV,
    db: Map<Seq<u8>, (Seq<u8>, usize)>,
    overlay: Option<Map<Seq<u8>, (NodeV, usize)>>,
    ladder: Map<Seq<u8>, NodeV>,
)
    requires
        0 <= i <= 8 * key.len(),
        spec_walk(key, i, node, db, overlay, ladder, true).result is Ok,
    ensures
        spec_walk(key, i, node, db, overlay, ladder, true).siblings.len() == 8 * key.len() - i,
        spec_walk(key, i, node, db, overlay, ladder, true).result matches Ok(l) ==> l is Some,
    decreases 8 * key.len() - i,
{
    if i < 8 * key.len() {
        match node {
            NodeV::Value { .. } => {},
            NodeV::Inner { .. } => {
                let sel = if spec_key_bit(key, i) {
                    ChildSelector::Right
                } else {
                    ChildSelector::Left
                };
                let child = node.spec_child(sel);
                match spec_resolve(child, db, overlay, ladder) {
                    Err(_) => {},
                    Ok(child_node) => {
                        lemma_walk_proof_len(key, i + 1, child_node, db, overlay, ladder);
                    },
                }
            },
        }
    }
}

/// Hash consistency of the three node sources: whatever a reference
/// resolves to hangs under the reference's own hash and is well formed.
/// The store satisfies this whenever its entries were written by `commit`,
/// which stores each node's canonical encoding under the node's hash.
pub open spec fn state_hash_consistent(
    db: Map<Seq<u8>, (Seq<u8>, usize)>,
    overlay: Option<Map<Seq<u8>, (NodeV, usize)>>,
    ladder: Map<Seq<u8>, NodeV>,
) -> bool {
    &&& forall|h: Seq<u8>| #[trigger] db.contains_key(h) ==> match spec_decode(db[h].0) {
        Ok(n) => n.spec_hash() == h,
        Err(_) => true,
    }
    &&& match overlay {
        None => true,
        Some(ov) => crate::storage::storage_wf(ov),
    }
    &&& forall|h: Seq<u8>| #[trigger] ladder.contains_key(h) ==> ladder[h].hash_linked()
        && ladder[h].spec_hash() == h
}

/// Under hash consistency, a resolved node is hash-linked and hangs under
/// the hash it was looked up by.
pub proof fn lemma_resolve_consistent(
    nh: NodeHashV,
    db: Map<Seq<u8>, (Seq<u8>, usize)>,
    overlay: Option<Map<Seq<u8>, (NodeV, usize)>>,
    ladder: Map<Seq<u8>, NodeV>,
)
    requires
        state_hash_consistent(db, overlay, ladder),
    ensures
        spec_resolve(nh, db, overlay, ladder) matches Ok(n) ==> n.hash_linked() && n.spec_hash()
            == nh.spec_hash(),
{
    match nh {
        NodeHashV::Database(h) => {
            if db.contains_key(h) {
                match spec_decode(db[h].0) {
                    Ok(n) => {
                        assert(n.hash_linked());
                    },
                    Err(_) => {},
                }
            }
        },
        _ => {},
    }
}

/// One verification step on the running hash: the sibling joins on the side
/// the key's bit at this level selects.
pub open spec fn spec_fold_step(key: Seq<u8>, acc: Seq<u8>, sib: Seq<u8>, bit_index: int) -> Seq<
    u8,
> {
    if spec_key_bit(key, bit_index) {
        crate::hasher::hash_of(sib + acc)
    } else {
        crate::hasher::hash_of(acc + sib)
    }
}

/// Folding a sibling list with one more sibling at its end performs the old
/// fold and then one more step, at the bit the new sibling's level selects.
proof fn lemma_fold_push(
    key: Seq<u8>,
    acc: Seq<u8>,
    s1: Seq<Seq<u8>>,
    x: Seq<u8>,
    j: int,
    n: int,
)
    requires
        0 <= j <= s1.len(),
        s1.len() < n,
    ensures
        crate::treedb::spec_verify_from(key, acc, s1.push(x), j, n) == spec_fold_step(
            key,
            crate::treedb::spec_verify_from(key, acc, s1, j, n),
            x,
            n - 1 - s1.len() as int,
        ),
    decreases s1.len() - j,
{
    reveal_with_fuel(crate::treedb::spec_verify_from, 3);
    if j == s1.len() {
        assert(s1.push(x)[j] == x);
    } else {
        assert(s1.push(x)[j] == s1[j]);
        lemma_fold_push(
            key,
            spec_fold_step(key, acc, s1[j], n - 1 - j),
            s1,
            x,
            j + 1,
            n,
        );
    }
}

/// The authenticated-proof law for a subtree: when a walk with a proof from
/// a well-formed node succeeds, folding the reversed sibling list up from
/// the leaf's hash recomputes that node's hash.
pub proof fn lemma_walk_verifies(
    key: Seq<u8>,
    i: int,
    node: NodeV,
    db: Map<Seq<u8>, (Seq<u8>, usize)>,
    overlay: Option<Map<Seq<u8>, (NodeV, usize)>>,
    ladder: Map<Seq<u8>, NodeV>,
)
    requires
        0 <= i <= 8 * key.len(),
        node.hash_linked(),
        state_hash_consistent(db, overlay, ladder),
        spec_walk(key, i, node, db, overlay, ladder, true).result is Ok,
    ensures
        ({
            let w = spec_walk(key, i, node, db, overlay, ladder, true);
            w.result->Ok_0 matches Some(leaf) && leaf.hash_linked()
                && crate::treedb::spec_verify_from(
                key,
                leaf.spec_hash(),
                w.siblings.reverse(),
                0,
                8 * key.len() as int,
            ) == node.spec_hash()
        }),
    decreases 8 * key.len() - i,
{
    let w = spec_walk(key, i, node, db, overlay, ladder, true);
    lemma_walk_proof_len(key, i, node, db, overlay, ladder);
    if i == 8 * key.len() {
        assert(w.siblings.reverse() =~= Seq::<Seq<u8>>::empty());
    } else {
        match node {
            NodeV::Value { .. } => {},
            NodeV::Inner { left, right, .. } => {
                let sel = if spec_key_bit(key, i) {
                    ChildSelector::Right
                } else {
                    ChildSelector::Left
                };
                let sibsel = if sel == ChildSelector::Left {
                    ChildSelector::Right
                } else {
                    ChildSelector::Left
                };
                let child = node.spec_child(sel);
                lemma_walk_step(key, i, node, db, overlay, ladder, true);
                match spec_resolve(child, db, overlay, ladder) {
                    Err(_) => {},
                    Ok(child_node) => {
                        lemma_resolve_consistent(child, db, overlay, ladder);
                        let rest = spec_walk(key, i + 1, child_node, db, overlay, ladder, true);
                        lemma_walk_verifies(key, i + 1, child_node, db, overlay, ladder);
                        lemma_walk_proof_len(key, i + 1, child_node, db, overlay, ladder);
                        let leaf = rest.result->Ok_0->Some_0;
                        let sib = node.spec_child(sibsel).spec_hash();
                        assert(w.siblings == seq![sib] + rest.siblings);
                        assert(w.siblings.reverse() =~= rest.siblings.reverse().push(sib));
                        lemma_fold_push(
                            key,
                            leaf.spec_hash(),
                            rest.siblings.reverse(),
                            sib,
                            0,
                            8 * key.len() as int,
                        );
                        assert(rest.siblings.reverse().len() == 8 * key.len() - (i + 1));
                        assert(8 * key.len() - 1 - rest.siblings.reverse().len() == i);
                        assert(crate::treedb::spec_verify_from(
                            key,
                            leaf.spec_hash(),
                            w.siblings.reverse(),
                            0,
                            8 * key.len() as int,
                        ) == spec_fold_step(key, child_node.spec_hash(), sib, i));
                    },
                }
            },
        }
    }
}

/// The authenticated-proof law, inclusion and non-inclusion alike: a
/// successful read with a proof, over hash-consistent sources, yields a
/// sibling list that re-verifies against the tree's root hash — the
/// recomputed root from the leaf's value and the reversed siblings is
/// exactly the root the walk started from.
pub proof fn lemma_proof_verifies(
    key: Seq<u8>,
    root: NodeHashV,
    db: Map<Seq<u8>, (Seq<u8>, usize)>,
    overlay: Option<Map<Seq<u8>, (NodeV, usize)>>,
    ladder: Map<Seq<u8>, NodeV>,
)
    requires
        state_hash_consistent(db, overlay, ladder),
        spec_lookup_leaf(key, root, db, overlay, ladder, true).result is Ok,
    ensures
        ({
            let o = spec_lookup_leaf(key, root, db, overlay, ladder, true);
            o.result->Ok_0 matches Some(leaf) && (leaf is Value
                ==> crate::treedb::spec_verify_hash(
                key,
                leaf->Value_value,
                o.siblings.reverse(),
                8 * key.len() as int,
            ) == root.spec_hash())
        }),
{
    match spec_resolve(root, db, overlay, ladder) {
        Err(_) => {},
        Ok(n) => {
            lemma_resolve_consistent(root, db, overlay, ladder);
            lemma_walk_verifies(key, 0, n, db, overlay, ladder);
        },
    }
}

/// A replay store covers a recorded node map when it holds, under each
/// recorded hash, bytes that decode to the recorded node.
pub open spec fn spec_store_covers(
    db2: Map<Seq<u8>, (Seq<u8>, usize)>,
    rec: Map<Seq<u8>, NodeV>,
) -> bool {
    forall|h: Seq<u8>| #[trigger] rec.contains_key(h) ==> db2.contains_key(h) && spec_decode(
        db2[h].0,
    ) == Ok::<NodeV, crate::error::NodeErrorV>(rec[h])
}

/// A recorded node map agrees with a store when each recorded node is what
/// the store decodes to under the recorded hash.
pub open spec fn spec_rec_agrees(
    rec: Map<Seq<u8>, NodeV>,
    db: Map<Seq<u8>, (Seq<u8>, usize)>,
) -> bool {
    forall|h: Seq<u8>| #[trigger] rec.contains_key(h) ==> db.contains_key(h) && spec_decode(
        db[h].0,
    ) == Ok::<NodeV, crate::error::NodeErrorV>(rec[h])
}

/// Agreement with a store is closed under merging recorded maps.
pub proof fn lemma_rec_agrees_union(
    a: Map<Seq<u8>, NodeV>,
    b: Map<Seq<u8>, NodeV>,
    db: Map<Seq<u8>, (Seq<u8>, usize)>,
)
    requires
        spec_rec_agrees(a, db),
        spec_rec_agrees(b, db),
    ensures
        spec_rec_agrees(a.union_prefer_right(b), db),
{
}

/// What a walk over a hash-consistent store records agrees with that store.
pub proof fn lemma_walk_recorded_agrees(
    key: Seq<u8>,
    i: int,
    node: NodeV,
    db: Map<Seq<u8>, (Seq<u8>, usize)>,
    ladder: Map<Seq<u8>, NodeV>,
    with_proof: bool,
)
    requires
        state_hash_consistent(db, None, ladder),
    ensures
        spec_rec_agrees(spec_walk(key, i, node, db, None, ladder, with_proof).recorded, db),
    decreases 8 * key.len() - i,
{
    if 0 <= i < 8 * key.len() {
        match node {
            NodeV::Value { .. } => {},
            NodeV::Inner { .. } => {
                let sel = if spec_key_bit(key, i) {
                    ChildSelector::Right
                } else {
                    ChildSelector::Left
                };
                let child = node.spec_child(sel);
                match spec_resolve(child, db, None, ladder) {
                    Err(_) => {},
                    Ok(cn) => {
                        lemma_resolve_consistent(child, db, None, ladder);
                        lemma_walk_recorded_agrees(key, i + 1, cn, db, ladder, with_proof);
                        lemma_rec_agrees_union(
                            spec_resolve_recorded(child, db, None, ladder),
                            spec_walk(key, i + 1, cn, db, None, ladder, with_proof).recorded,
                            db,
                        );
                    },
                }
            },
        }
    }
}

/// What a whole read over a hash-consistent store records agrees with that
/// store.
pub proof fn lemma_lookup_recorded_agrees(
    key: Seq<u8>,
    root: NodeHashV,
    db: Map<Seq<u8>, (Seq<u8>, usize)>,
    ladder: Map<Seq<u8>, NodeV>,
    with_proof: bool,
)
    requires
        state_hash_consistent(db, None, ladder),
    ensures
        spec_rec_agrees(spec_lookup_leaf(key, root, db, None, ladder, with_proof).recorded, db),
{
    match spec_resolve(root, db, None, ladder) {
        Err(_) => {},
        Ok(n) => {
            lemma_resolve_consistent(root, db, None, ladder);
            lemma_walk_recorded_agrees(key, 0, n, db, ladder, with_proof);
            lemma_rec_agrees_union(
                spec_resolve_recorded(root, db, None, ladder),
                spec_walk(key, 0, n, db, None, ladder, with_proof).recorded,
                db,
            );
        },
    }
}

/// The walk half of recorder completeness: a walk that succeeded against a
/// hash-consistent store, all of whose database resolutions are held by a
/// recorded map that agrees with that store, runs identically against any
/// store covering the recorded map.
proof fn lemma_replay_walk(
    key: Seq<u8>,
    i: int,
    node: NodeV,
    db: Map<Seq<u8>, (Seq<u8>, usize)>,
    ladder: Map<Seq<u8>, NodeV>,
    rec: Map<Seq<u8>, NodeV>,
    db2: Map<Seq<u8>, (Seq<u8>, usize)>,
    with_proof: bool,
)
    requires
        state_hash_consistent(db, None, ladder),
        spec_rec_agrees(rec, db),
        spec_store_covers(db2, rec),
        spec_walk(key, i, node, db, None, ladder, with_proof).result is Ok,
        forall|h: Seq<u8>|
            #[trigger] spec_walk(key, i, node, db, None, ladder, with_proof).recorded.contains_key(
                h,
            ) ==> rec.contains_key(h),
    ensures
        spec_walk(key, i, node, db2, None, ladder, with_proof).result == spec_walk(
            key,
            i,
            node,
            db,
            None,
            ladder,
            with_proof,
        ).result,
        spec_walk(key, i, node, db2, None, ladder, with_proof).siblings == spec_walk(
            key,
            i,
            node,
            db,
            None,
            ladder,
            with_proof,
        ).siblings,
    decreases 8 * key.len() - i,
{
    if 0 <= i < 8 * key.len() {
        match node {
            NodeV::Value { .. } => {},
            NodeV::Inner { .. } => {
                let sel = if spec_key_bit(key, i) {
                    ChildSelector::Right
                } else {
                    ChildSelector::Left
                };
                let child = node.spec_child(sel);
                lemma_walk_step(key, i, node, db, None, ladder, with_proof);
                lemma_walk_step(key, i, node, db2, None, ladder, with_proof);
                if child.is_default() && !with_proof {
                } else {
                    let w = spec_walk(key, i, node, db, None, ladder, with_proof);
                    match spec_resolve(child, db, None, ladder) {
                        Err(_) => {},
                        Ok(cn) => {
                            lemma_resolve_consistent(child, db, None, ladder);
                            let rec0 = spec_resolve_recorded(child, db, None, ladder);
                            let rest = spec_walk(
                                key,
                                i + 1,
                                cn,
                                db,
                                None,
                                ladder,
                                with_proof,
                            );
                            if child is Database {
                                let h = child.spec_hash();
                                assert(cn.spec_hash() == h);
                                assert(rec0.contains_key(h));
                                assert(w.recorded.contains_key(h));
                                assert(rec.contains_key(h));
                                assert(spec_decode(db[h].0) == Ok::<
                                    NodeV,
                                    crate::error::NodeErrorV,
                                >(cn));
                                assert(spec_decode(db[h].0) == Ok::<
                                    NodeV,
                                    crate::error::NodeErrorV,
                                >(rec[h]));
                                assert(spec_decode(db2[h].0) == Ok::<
                                    NodeV,
                                    crate::error::NodeErrorV,
                                >(cn));
                                assert(spec_resolve(child, db2, None, ladder) == Ok::<
                                    NodeV,
                                    TreeErrorV,
                                >(cn));
                            } else {
                                assert(spec_resolve(child, db2, None, ladder) == Ok::<
                                    NodeV,
                                    TreeErrorV,
                                >(cn));
                            }
                            assert forall|h: Seq<u8>| #[trigger] rest.recorded.contains_key(
                                h,
                            ) implies rec.contains_key(h) by {
                                assert(w.recorded.contains_key(h));
                            }
                            lemma_replay_walk(key, i + 1, cn, db, ladder, rec, db2, with_proof);
                        },
                    }
                }
            },
        }
    }
}

/// Recorder completeness: a read that succeeded against a hash-consistent
/// store succeeds with the same outcome against any store that covers a
/// recorded map agreeing with the original store and holding everything the
/// read resolved from it — in particular, against the minimal store built
/// from a recorder that was attached during the read.
pub proof fn lemma_recorder_completeness(
    key: Seq<u8>,
    root: NodeHashV,
    db: Map<Seq<u8>, (Seq<u8>, usize)>,
    ladder: Map<Seq<u8>, NodeV>,
    rec: Map<Seq<u8>, NodeV>,
    db2: Map<Seq<u8>, (Seq<u8>, usize)>,
    with_proof: bool,
)
    requires
        state_hash_consistent(db, None, ladder),
        spec_rec_agrees(rec, db),
        spec_store_covers(db2, rec),
        spec_lookup_leaf(key, root, db, None, ladder, with_proof).result is Ok,
        forall|h: Seq<u8>|
            #[trigger] spec_lookup_leaf(
                key,
                root,
                db,
                None,
                ladder,
                with_proof,
            ).recorded.contains_key(h) ==> rec.contains_key(h),
    ensures
        spec_lookup_leaf(key, root, db2, None, ladder, with_proof).result == spec_lookup_leaf(
            key,
            root,
            db,
            None,
            ladder,
            with_proof,
        ).result,
        spec_lookup_leaf(key, root, db2, None, ladder, with_proof).siblings == spec_lookup_leaf(
            key,
            root,
            db,
            None,
            ladder,
            with_proof,
        ).siblings,
{
    let o = spec_lookup_leaf(key, root, db, None, ladder, with_proof);
    match spec_resolve(root, db, None, ladder) {
        Err(_) => {},
        Ok(n) => {
            lemma_resolve_consistent(root, db, None, ladder);
            let rec0 = spec_resolve_recorded(root, db, None, ladder);
            let rest = spec_walk(key, 0, n, db, None, ladder, with_proof);
            if root is Database {
                let h = root.spec_hash();
                assert(rec0.contains_key(h));
                assert(o.recorded.contains_key(h));
                assert(spec_decode(db2[h].0) == Ok::<NodeV, crate::error::NodeErrorV>(n));
                assert(spec_resolve(root, db2, None, ladder) == Ok::<NodeV, TreeErrorV>(n));
            } else {
                assert(spec_resolve(root, db2, None, ladder) == Ok::<NodeV, TreeErrorV>(n));
            }
            assert forall|h: Seq<u8>| #[trigger] rest.recorded.contains_key(h) implies
                rec.contains_key(h) by {
                assert(o.recorded.contains_key(h));
            }
            lemma_replay_walk(key, 0, n, db, ladder, rec, db2, with_proof);
        },
    }
}

/// A whole read with a proof, when it succeeds, ends on a leaf and pushes
/// one sibling per level of the tree.
pub proof fn lemma_walk_proof_len_leaf(
    key: Seq<u8>,
    root: NodeHashV,
    db: Map<Seq<u8>, (Seq<u8>, usize)>,
    overlay: Option<Map<Seq<u8>, (NodeV, usize)>>,
    ladder: Map<Seq<u8>, NodeV>,
)
    ensures
        ({
            let o = spec_lookup_leaf(key, root, db, overlay, ladder, true);
            o.result is Ok ==> (o.result->Ok_0 is Some && o.siblings.len() == 8 * key.len())
        }),
{
    match spec_resolve(root, db, overlay, ladder) {
        Err(_) => {},
        Ok(n) => {
            let w = spec_walk(key, 0, n, db, overlay, ladder, true);
            if w.result is Ok {
                lemma_walk_proof_len(key, 0, n, db, overlay, ladder);
            }
        },
    }
}

} // verus!
