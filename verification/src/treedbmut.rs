//! The mutable tree: writes go to an in-memory overlay and a death row and
//! are reconciled against the backing store by `commit`.

use vstd::prelude::*;

use crate::bytemap::{alist_keys_distinct, alist_view, ByteMap};
use crate::error::{DataError, KeyError, KeyErrorV, NodeKindV, TreeError, TreeErrorV};
use crate::error::{NodeError, NodeErrorV};
use crate::hasher::{hash_of, HASH_LENGTH};
use crate::key::{spec_key_bit, Key};
use crate::lookup::{
    lemma_rec_after_assoc, lemma_rec_after_empty, lemma_rec_after_single, lemma_walk_step,
    spec_lookup_leaf, spec_rec_after, spec_resolve, spec_resolve_recorded, spec_walk, views_of,
};
use crate::node::{clone_bytes, spec_encode, ChildSelector, Node, NodeHash, NodeHashV, NodeV};
use crate::recorder::Recorder;
use crate::storage::{sat_inc, storage_wf, NodeStorage};
use crate::store::Store;
use crate::tree::{ladder_wf, null_nodes, spec_default_hash};
use crate::treedb::spec_zero_hash;

verus! {

// ---------------------------------------------------------------------------
// Spec model of the mutable session state
// ---------------------------------------------------------------------------

/// The parts of a mutable tree that a write changes: the overlay, the death
/// row, and an attached recorder's contents.
pub struct MutState {
    pub overlay: Map<Seq<u8>, (NodeV, usize)>,
    pub death: Map<Seq<u8>, usize>,
    pub rec: Option<Map<Seq<u8>, NodeV>>,
}

/// What [`NodeStorage::remove`] does to the overlay at a hash.
pub open spec fn spec_overlay_remove(
    ov: Map<Seq<u8>, (NodeV, usize)>,
    h: Seq<u8>,
) -> Map<Seq<u8>, (NodeV, usize)> {
    if ov.contains_key(h) {
        if ov[h].1 <= 1 {
            ov.remove(h)
        } else {
            ov.insert(h, (ov[h].0, (ov[h].1 - 1) as usize))
        }
    } else {
        ov
    }
}

/// What [`NodeStorage::insert`] does to the overlay.
pub open spec fn spec_overlay_insert(ov: Map<Seq<u8>, (NodeV, usize)>, n: NodeV) -> Map<
    Seq<u8>,
    (NodeV, usize),
> {
    let h = n.spec_hash();
    if ov.contains_key(h) {
        ov.insert(h, (ov[h].0, sat_inc(ov[h].1)))
    } else {
        ov.insert(h, (n, 1usize))
    }
}

/// Adding one pending deletion for a hash to the death row.
pub open spec fn spec_death_add(d: Map<Seq<u8>, usize>, h: Seq<u8>) -> Map<Seq<u8>, usize> {
    if d.contains_key(h) {
        d.insert(h, sat_inc(d[h]))
    } else {
        d.insert(h, 1usize)
    }
}

/// Retiring a node reference: an overlay reference drops one overlay count,
/// a database reference gains one pending deletion, a default reference is
/// not stored anywhere and nothing happens.
pub open spec fn spec_remove_node(st: MutState, nh: NodeHashV) -> MutState {
    match nh {
        NodeHashV::InMemory(h) => MutState { overlay: spec_overlay_remove(st.overlay, h), ..st },
        NodeHashV::Database(h) => MutState { death: spec_death_add(st.death, h), ..st },
        NodeHashV::Default(_) => st,
    }
}

/// The recorder's contents after one resolution.
pub open spec fn spec_rec_resolve(
    st: MutState,
    nh: NodeHashV,
    db: Map<Seq<u8>, (Seq<u8>, usize)>,
    ladder: Map<Seq<u8>, NodeV>,
) -> MutState {
    MutState {
        rec: spec_rec_after(st.rec, spec_resolve_recorded(nh, db, Some(st.overlay), ladder)),
        ..st
    }
}

/// What the recursive insertion returns: its result (the node now standing
/// where the walk entered, the value the leaf held before, and whether
/// anything changed), and the session state it leaves behind.
pub struct InsertOutcome {
    pub result: Result<(NodeV, Option<Seq<u8>>, bool), TreeErrorV>,
    pub st: MutState,
}

/// The tail of the leaf-level insertion, once the old value is known: an
/// unchanged hash changes nothing; otherwise the new leaf enters the overlay
/// unless it is the default, and the old reference is retired.
pub open spec fn spec_finish_leaf(
    st: MutState,
    nh: NodeHashV,
    new_node: NodeV,
    old_value: Option<Seq<u8>>,
) -> InsertOutcome {
    if new_node.spec_hash() == nh.spec_hash() {
        InsertOutcome { result: Ok((new_node, old_value, false)), st }
    } else {
        let st2 = if !new_node.is_default() {
            MutState { overlay: spec_overlay_insert(st.overlay, new_node), ..st }
        } else {
            st
        };
        let st3 = spec_remove_node(st2, nh);
        InsertOutcome { result: Ok((new_node, old_value, true)), st: st3 }
    }
}

/// The recursive insertion: descend to the leaf by the key's bits, build the
/// new leaf there, and rebuild each ancestor's hash on the way back up,
/// retiring every node that was replaced.
pub open spec fn spec_insert_at(
    db: Map<Seq<u8>, (Seq<u8>, usize)>,
    ladder: Map<Seq<u8>, NodeV>,
    st: MutState,
    nh: NodeHashV,
    key: Seq<u8>,
    value: Seq<u8>,
    i: int,
) -> InsertOutcome
    decreases 8 * key.len() - i,
{
    if i < 0 || i >= 8 * key.len() {
        let new_node = NodeV::Value { hash: hash_of(value), value: value };
        match nh {
            NodeHashV::Default(_) => spec_finish_leaf(st, nh, new_node, None),
            _ => {
                let st1 = spec_rec_resolve(st, nh, db, ladder);
                match spec_resolve(nh, db, Some(st.overlay), ladder) {
                    Err(e) => InsertOutcome { result: Err(e), st: st1 },
                    Ok(old_n) => match old_n {
                        NodeV::Inner { .. } => InsertOutcome {
                            result: Err(
                                TreeErrorV::NodeError(
                                    NodeErrorV::InvalidNodeType(NodeKindV::Inner, NodeKindV::Value),
                                ),
                            ),
                            st: st1,
                        },
                        NodeV::Value { value: old_value, .. } => spec_finish_leaf(
                            st1,
                            nh,
                            new_node,
                            Some(old_value),
                        ),
                    },
                }
            },
        }
    } else {
        let st1 = spec_rec_resolve(st, nh, db, ladder);
        match spec_resolve(nh, db, Some(st.overlay), ladder) {
            Err(e) => InsertOutcome { result: Err(e), st: st1 },
            Ok(cur) => match cur {
                NodeV::Value { .. } => InsertOutcome {
                    result: Err(
                        TreeErrorV::NodeError(
                            NodeErrorV::InvalidNodeType(NodeKindV::Value, NodeKindV::Inner),
                        ),
                    ),
                    st: st1,
                },
                NodeV::Inner { left, right, .. } => {
                    let sel = if spec_key_bit(key, i) {
                        ChildSelector::Right
                    } else {
                        ChildSelector::Left
                    };
                    let child = cur.spec_child(sel);
                    let sub = spec_insert_at(db, ladder, st1, child, key, value, i + 1);
                    match sub.result {
                        Err(e) => InsertOutcome { result: Err(e), st: sub.st },
                        Ok((child_node, old_value, changed)) => {
                            if !changed {
                                InsertOutcome { result: Ok((cur, old_value, false)), st: sub.st }
                            } else {
                                let new_ref = if child_node.is_default() {
                                    NodeHashV::Default(child_node.spec_hash())
                                } else {
                                    NodeHashV::InMemory(child_node.spec_hash())
                                };
                                let l = if sel == ChildSelector::Left {
                                    new_ref
                                } else {
                                    left
                                };
                                let r = if sel == ChildSelector::Right {
                                    new_ref
                                } else {
                                    right
                                };
                                let updated = NodeV::Inner {
                                    hash: hash_of(l.spec_hash() + r.spec_hash()),
                                    left: l,
                                    right: r,
                                };
                                let st2 = if !updated.is_default() {
                                    MutState {
                                        overlay: spec_overlay_insert(sub.st.overlay, updated),
                                        ..sub.st
                                    }
                                } else {
                                    sub.st
                                };
                                let st3 = spec_remove_node(st2, nh);
                                InsertOutcome { result: Ok((updated, old_value, true)), st: st3 }
                            }
                        },
                    }
                },
            },
        }
    }
}

/// The whole insertion: run the recursive insertion from the root; when it
/// changed anything, retire the old root reference and stand the new root in
/// its place, in the overlay unless it is the default.
pub open spec fn spec_insert(
    db: Map<Seq<u8>, (Seq<u8>, usize)>,
    ladder: Map<Seq<u8>, NodeV>,
    st: MutState,
    root: NodeHashV,
    key: Seq<u8>,
    value: Seq<u8>,
) -> (Result<Option<Seq<u8>>, TreeErrorV>, MutState, NodeHashV) {
    let o = spec_insert_at(db, ladder, st, root, key, value, 0);
    match o.result {
        Err(e) => (Err(e), o.st, root),
        Ok((new_root, old_value, changed)) => {
            if changed {
                let st2 = spec_remove_node(o.st, root);
                if new_root.is_default() {
                    (Ok(old_value), st2, NodeHashV::Default(new_root.spec_hash()))
                } else {
                    (
                        Ok(old_value),
                        MutState {
                            overlay: spec_overlay_insert(st2.overlay, new_root),
                            ..st2
                        },
                        NodeHashV::InMemory(new_root.spec_hash()),
                    )
                }
            } else {
                (Ok(old_value), o.st, root)
            }
        },
    }
}

// ---------------------------------------------------------------------------
// Spec model of commit
// ---------------------------------------------------------------------------

/// A store entry after `n` emplacements of the same bytes.
pub open spec fn spec_emplace_n(
    e: Option<(Seq<u8>, usize)>,
    bytes: Seq<u8>,
    n: nat,
) -> Option<(Seq<u8>, usize)>
    decreases n,
{
    if n == 0 {
        e
    } else {
        let e1 = match e {
            None => Some((bytes, 1usize)),
            Some((b, c)) => Some((b, sat_inc(c))),
        };
        spec_emplace_n(e1, bytes, (n - 1) as nat)
    }
}

/// A store entry after `n` removals.
pub open spec fn spec_remove_n(e: Option<(Seq<u8>, usize)>, n: nat) -> Option<(Seq<u8>, usize)>
    decreases n,
{
    if n == 0 {
        e
    } else {
        let e1 = match e {
            None => None,
            Some((b, c)) => if c > 1 {
                Some((b, (c - 1) as usize))
            } else {
                None
            },
        };
        spec_remove_n(e1, (n - 1) as nat)
    }
}

/// What commit does to the store at one hash, given the overlay's entry and
/// the death row's count for it: insertions and deletions cancel, and only
/// the excess reaches the store.
pub open spec fn spec_commit_key(
    db_entry: Option<(Seq<u8>, usize)>,
    ov: Option<(NodeV, usize)>,
    death: Option<usize>,
) -> Option<(Seq<u8>, usize)> {
    match ov {
        Some((node, ins)) => {
            let bytes = spec_encode(node);
            match death {
                Some(del) => if ins == del {
                    db_entry
                } else if ins > del {
                    spec_emplace_n(db_entry, bytes, (ins - del) as nat)
                } else {
                    spec_remove_n(db_entry, (del - ins) as nat)
                },
                None => spec_emplace_n(db_entry, bytes, ins as nat),
            }
        },
        None => match death {
            Some(del) => spec_remove_n(db_entry, del as nat),
            None => db_entry,
        },
    }
}

/// The store's entry at a hash, if any.
pub open spec fn spec_db_at(
    db: Map<Seq<u8>, (Seq<u8>, usize)>,
    h: Seq<u8>,
) -> Option<(Seq<u8>, usize)> {
    if db.contains_key(h) {
        Some(db[h])
    } else {
        None
    }
}

/// The overlay's entry at a hash, if any.
pub open spec fn spec_ov_at(
    ov: Map<Seq<u8>, (NodeV, usize)>,
    h: Seq<u8>,
) -> Option<(NodeV, usize)> {
    if ov.contains_key(h) {
        Some(ov[h])
    } else {
        None
    }
}

/// The death row's count at a hash, if any.
pub open spec fn spec_death_at(d: Map<Seq<u8>, usize>, h: Seq<u8>) -> Option<usize> {
    if d.contains_key(h) {
        Some(d[h])
    } else {
        None
    }
}

/// The whole store after commit: every hash carries the entry that its
/// overlay and death-row counts dictate.
pub open spec fn spec_committed_db(
    db: Map<Seq<u8>, (Seq<u8>, usize)>,
    ov: Map<Seq<u8>, (NodeV, usize)>,
    death: Map<Seq<u8>, usize>,
    db2: Map<Seq<u8>, (Seq<u8>, usize)>,
) -> bool {
    forall|h: Seq<u8>|
        #![trigger spec_db_at(db2, h)]
        spec_db_at(db2, h) == spec_commit_key(
            spec_db_at(db, h),
            spec_ov_at(ov, h),
            spec_death_at(death, h),
        )
}

// ---------------------------------------------------------------------------
// The mutable tree
// ---------------------------------------------------------------------------

/// Builds a [`TreeDBMut`] over a store, a root hash and a depth in bytes.
pub struct TreeDBMutBuilder {
    db: Store,
    root: Vec<u8>,
    depth: usize,
    recorder: Option<Recorder>,
}

impl TreeDBMutBuilder {
    /// The store the builder was given.
    pub closed spec fn db_view(&self) -> Map<Seq<u8>, (Seq<u8>, usize)> {
        self.db@
    }

    /// The root hash the builder was given.
    pub closed spec fn root_bytes(&self) -> Seq<u8> {
        self.root@
    }

    /// The depth in bytes the builder was given.
    pub closed spec fn depth_bytes(&self) -> int {
        self.depth as int
    }

    /// The attached recorder's contents, if one is attached.
    pub closed spec fn recorder_view(&self) -> Option<Map<Seq<u8>, NodeV>> {
        match self.recorder {
            Some(ref r) => Some(r@),
            None => None,
        }
    }

    /// Starts building a mutable tree. Fails exactly when the depth in bytes
    /// is too large for the tree's width in bits to be counted by a `usize`.
    pub fn new(db: Store, root: Vec<u8>, depth: usize) -> (r: Result<TreeDBMutBuilder, TreeError>)
        requires
            root@.len() == HASH_LENGTH,
        ensures
            match r {
                Ok(b) => {
                    &&& depth <= usize::MAX / 8
                    &&& b.db_view() == db@
                    &&& b.root_bytes() == root@
                    &&& b.depth_bytes() == depth
                    &&& b.recorder_view() is None
                },
                Err(e) => depth > usize::MAX / 8 && e@ == TreeErrorV::DepthTooLarge(
                    depth as int,
                    usize::MAX as int / 8,
                ),
            },
    {
        if depth > usize::MAX / 8 {
            return Err(TreeError::DepthTooLarge(depth, usize::MAX / 8));
        }
        Ok(TreeDBMutBuilder { db, root, depth, recorder: None })
    }

    /// Attaches a recorder, which will capture every node the tree resolves
    /// from its store.
    pub fn with_recorder(self, recorder: Recorder) -> (r: TreeDBMutBuilder)
        ensures
            r.db_view() == self.db_view(),
            r.root_bytes() == self.root_bytes(),
            r.depth_bytes() == self.depth_bytes(),
            r.recorder_view() == Some(recorder@),
    {
        TreeDBMutBuilder { recorder: Some(recorder), ..self }
    }

    /// Attaches a recorder if one is given.
    pub fn with_optional_recorder(self, recorder: Option<Recorder>) -> (r: TreeDBMutBuilder)
        ensures
            r.db_view() == self.db_view(),
            r.root_bytes() == self.root_bytes(),
            r.depth_bytes() == self.depth_bytes(),
            r.recorder_view() == match recorder {
                Some(ref rec) => Some(rec@),
                None => self.recorder_view(),
            },
    {
        match recorder {
            Some(rec) => TreeDBMutBuilder { recorder: Some(rec), ..self },
            None => self,
        }
    }

    /// Builds the mutable tree with an empty overlay and death row. A root
    /// equal to the zero hash or to the empty tree's root resolves through
    /// the null-node ladder; any other root is read from the store.
    pub fn build(self) -> (r: TreeDBMut)
        requires
            self.depth_bytes() <= usize::MAX / 8,
            self.root_bytes().len() == HASH_LENGTH,
        ensures
            r.wf(),
            r.db_view() == self.db_view(),
            r.depth_bytes() == self.depth_bytes(),
            r.recorder_view() == self.recorder_view(),
            r.root_bytes() == self.root_bytes(),
            r.overlay_view() == Map::<Seq<u8>, (NodeV, usize)>::empty(),
            r.death_view() == Map::<Seq<u8>, usize>::empty(),
            ladder_wf(r.ladder_view(), (8 * self.depth_bytes()) as nat),
            r.root_view() == (if self.root_bytes() == spec_zero_hash() || self.root_bytes()
                == spec_default_hash((8 * self.depth_bytes()) as nat) {
                NodeHashV::Default(spec_default_hash((8 * self.depth_bytes()) as nat))
            } else {
                NodeHashV::Database(self.root_bytes())
            }),
    {
        let (nulls, default_root) = null_nodes(8 * self.depth);
        let zero: Vec<u8> = vec![0u8; HASH_LENGTH];
        proof {
            assert(zero@ =~= spec_zero_hash());
        }
        let root_handle = if crate::bytemap::bytes_eq(self.root.as_slice(), zero.as_slice())
            || crate::bytemap::bytes_eq(self.root.as_slice(), default_root.as_slice()) {
            NodeHash::Default(default_root)
        } else {
            NodeHash::Database(clone_bytes(&self.root))
        };
        TreeDBMut {
            storage: NodeStorage::empty(),
            death_row: ByteMap::new(),
            db: self.db,
            root: self.root,
            root_handle,
            null_nodes: nulls,
            recorder: self.recorder,
            depth: self.depth,
        }
    }
}

/// A mutable sparse Merkle tree over a backing store, written by byte-string
/// keys. Writes go to the overlay and the death row; `commit` reconciles
/// them against the store and publishes the new root.
pub struct TreeDBMut {
    storage: NodeStorage,
    death_row: ByteMap<usize>,
    db: Store,
    root: Vec<u8>,
    root_handle: NodeHash,
    null_nodes: ByteMap<Node>,
    recorder: Option<Recorder>,
    depth: usize,
}

impl TreeDBMut {
    /// The backing store's contents.
    pub closed spec fn db_view(&self) -> Map<Seq<u8>, (Seq<u8>, usize)> {
        self.db@
    }

    /// The root hash cell, as last published by `commit`.
    pub closed spec fn root_bytes(&self) -> Seq<u8> {
        self.root@
    }

    /// The reference to the current root, which an uncommitted write moves
    /// into the overlay.
    pub closed spec fn root_view(&self) -> NodeHashV {
        self.root_handle@
    }

    /// The overlay of pending nodes.
    pub closed spec fn overlay_view(&self) -> Map<Seq<u8>, (NodeV, usize)> {
        self.storage@
    }

    /// The pending deletions against the store.
    pub closed spec fn death_view(&self) -> Map<Seq<u8>, usize> {
        self.death_row@
    }

    /// The null-node ladder.
    pub closed spec fn ladder_view(&self) -> Map<Seq<u8>, NodeV> {
        self.null_nodes@
    }

    /// The attached recorder's contents, if one is attached.
    pub closed spec fn recorder_view(&self) -> Option<Map<Seq<u8>, NodeV>> {
        match self.recorder {
            Some(ref r) => Some(r@),
            None => None,
        }
    }

    /// The tree's depth in bytes.
    pub closed spec fn depth_bytes(&self) -> int {
        self.depth as int
    }

    /// The session state a write changes, bundled.
    pub open spec fn st(&self) -> MutState {
        MutState {
            overlay: self.overlay_view(),
            death: self.death_view(),
            rec: self.recorder_view(),
        }
    }

    /// Well-formedness: the ladder matches the tree's depth, the root
    /// reference carries a digest, the width in bits is countable, and every
    /// overlay node hangs well-formed under its own hash.
    pub closed spec fn wf(&self) -> bool {
        &&& ladder_wf(self.null_nodes@, (8 * self.depth as int) as nat)
        &&& 8 * self.depth as int <= usize::MAX
        &&& self.root_handle@.spec_hash().len() == HASH_LENGTH
        &&& storage_wf(self.storage@)
    }

    /// The tree's depth in bits.
    pub fn depth(&self) -> (r: usize)
        requires
            self.wf(),
        ensures
            r == 8 * self.depth_bytes(),
    {
        8 * self.depth
    }

    /// The tree's depth in bytes.
    pub fn depth_in_bytes(&self) -> (r: usize)
        ensures
            r == self.depth_bytes(),
    {
        self.depth
    }

    /// Takes the tree apart, handing back the store, the last published
    /// root, and the recorder if one was attached.
    pub fn into_parts(self) -> (r: (Store, Vec<u8>, Option<Recorder>))
        ensures
            r.0@ == self.db_view(),
            r.1@ == self.root_bytes(),
            match r.2 {
                Some(rec) => self.recorder_view() == Some(rec@),
                None => self.recorder_view() is None,
            },
    {
        (self.db, self.root, self.recorder)
    }

    /// Resolves one node reference: through the overlay for in-memory
    /// references, the store for database references (recording the node if
    /// a recorder is attached), and the ladder for default references.
    fn lookup(&mut self, node_hash: &NodeHash) -> (r: Result<Node, TreeError>)
        requires
            old(self).wf(),
        ensures
            final(self).wf(),
            final(self).db_view() == old(self).db_view(),
            final(self).root_bytes() == old(self).root_bytes(),
            final(self).root_view() == old(self).root_view(),
            final(self).overlay_view() == old(self).overlay_view(),
            final(self).death_view() == old(self).death_view(),
            final(self).ladder_view() == old(self).ladder_view(),
            final(self).depth_bytes() == old(self).depth_bytes(),
            final(self).recorder_view() == spec_rec_after(
                old(self).recorder_view(),
                spec_resolve_recorded(
                    node_hash@,
                    old(self).db_view(),
                    Some(old(self).overlay_view()),
                    old(self).ladder_view(),
                ),
            ),
            ({
                let res = spec_resolve(
                    node_hash@,
                    old(self).db_view(),
                    Some(old(self).overlay_view()),
                    old(self).ladder_view(),
                );
                match r {
                    Ok(n) => res == Ok::<NodeV, TreeErrorV>(n@) && n@.wf(),
                    Err(e) => res == Err::<NodeV, TreeErrorV>(e@),
                }
            }),
    {
        match node_hash {
            NodeHash::InMemory(h) => {
                proof {
                    lemma_rec_after_empty(old(self).recorder_view());
                }
                match self.storage.get(h.as_slice()) {
                    Some(n) => Ok(n.clone()),
                    None => Err(
                        TreeError::DataError(DataError::InMemoryDataNotFound(clone_bytes(h))),
                    ),
                }
            },
            NodeHash::Database(h) => {
                let data = match self.db.get(h.as_slice()) {
                    Some(d) => d,
                    None => {
                        proof {
                            lemma_rec_after_empty(old(self).recorder_view());
                        }
                        return Err(
                            TreeError::DataError(DataError::DatabaseDataNotFound(clone_bytes(h))),
                        );
                    },
                };
                let node = match Node::decode(data.as_slice()) {
                    Ok(n) => n,
                    Err(e) => {
                        proof {
                            lemma_rec_after_empty(old(self).recorder_view());
                        }
                        return Err(TreeError::NodeError(e));
                    },
                };
                match &mut self.recorder {
                    Some(rec) => {
                        let ghost m0 = rec@;
                        rec.record(&node);
                        proof {
                            lemma_rec_after_single(m0, node@.spec_hash(), node@);
                        }
                    },
                    None => {
                        proof {
                            lemma_rec_after_empty(old(self).recorder_view());
                        }
                    },
                }
                Ok(node)
            },
            NodeHash::Default(h) => {
                proof {
                    lemma_rec_after_empty(old(self).recorder_view());
                }
                match self.null_nodes.get(h.as_slice()) {
                    Some(n) => Ok(n.clone()),
                    None => Err(
                        TreeError::DataError(DataError::NullNodeDataNotFound(clone_bytes(h))),
                    ),
                }
            },
        }
    }

    /// Retires a node reference; see [`spec_remove_node`].
    fn remove_node(&mut self, node_hash: &NodeHash)
        requires
            old(self).wf(),
        ensures
            final(self).wf(),
            final(self).db_view() == old(self).db_view(),
            final(self).root_bytes() == old(self).root_bytes(),
            final(self).root_view() == old(self).root_view(),
            final(self).ladder_view() == old(self).ladder_view(),
            final(self).depth_bytes() == old(self).depth_bytes(),
            final(self).st() == spec_remove_node(old(self).st(), node_hash@),
    {
        match node_hash {
            NodeHash::InMemory(h) => {
                let _dropped = self.storage.remove(h.as_slice());
            },
            NodeHash::Database(h) => {
                match self.death_row.remove(h.as_slice()) {
                    Some(count) => {
                        let new_count = if count == usize::MAX {
                            count
                        } else {
                            count + 1
                        };
                        self.death_row.insert(vstd::slice::slice_to_vec(h.as_slice()), new_count);
                        proof {
                            assert(final(self).death_view() =~= spec_death_add(
                                old(self).death_view(),
                                h@,
                            ));
                        }
                    },
                    None => {
                        self.death_row.insert(vstd::slice::slice_to_vec(h.as_slice()), 1);
                    },
                }
            },
            NodeHash::Default(_) => {},
        }
    }

    /// The recursive insertion; see [`spec_insert_at`]. Descends to the leaf
    /// by the key's bits, builds the new leaf there, and rebuilds each
    /// ancestor's hash on the way back up.
    fn insert_at(
        &mut self,
        current_hash: &NodeHash,
        key: &Key,
        value: &[u8],
        key_index: usize,
    ) -> (r: Result<(Node, Option<Vec<u8>>, bool), TreeError>)
        requires
            old(self).wf(),
            key@.len() == old(self).depth_bytes(),
            key_index <= 8 * key@.len(),
        ensures
            final(self).wf(),
            final(self).db_view() == old(self).db_view(),
            final(self).root_bytes() == old(self).root_bytes(),
            final(self).root_view() == old(self).root_view(),
            final(self).ladder_view() == old(self).ladder_view(),
            final(self).depth_bytes() == old(self).depth_bytes(),
            ({
                let o = spec_insert_at(
                    old(self).db_view(),
                    old(self).ladder_view(),
                    old(self).st(),
                    current_hash@,
                    key@,
                    value@,
                    key_index as int,
                );
                &&& final(self).st() == o.st
                &&& match r {
                    Ok((n, old_value, changed)) => o.result == Ok::<
                        (NodeV, Option<Seq<u8>>, bool),
                        TreeErrorV,
                    >((n@, opt_bytes_view(old_value), changed)) && n@.wf(),
                    Err(e) => o.result == Err::<(NodeV, Option<Seq<u8>>, bool), TreeErrorV>(e@),
                }
            }),
        decreases 8 * key@.len() - key_index,
    {
        let n_bits = 8 * self.depth;
        if key_index == n_bits {
            let node = Node::new_value(value);
            let old_node: Option<Vec<u8>> = match current_hash {
                NodeHash::Default(_) => None,
                _ => {
                    let cur = match self.lookup(current_hash) {
                        Ok(n) => n,
                        Err(e) => {
                            return Err(e);
                        },
                    };
                    let v = match cur.value() {
                        Ok(v) => clone_bytes(v),
                        Err(e) => {
                            return Err(TreeError::NodeError(e));
                        },
                    };
                    Some(v)
                },
            };
            if crate::bytemap::bytes_eq(node.hash().as_slice(), current_hash.hash().as_slice()) {
                return Ok((node, old_node, false));
            }
            if !node.is_default() {
                self.storage.insert(node.clone());
            }
            self.remove_node(current_hash);
            return Ok((node, old_node, true));
        }
        let current = match self.lookup(current_hash) {
            Ok(n) => n,
            Err(e) => {
                return Err(e);
            },
        };
        let bit = match key.bit(key_index) {
            Ok(b) => b,
            Err(e) => {
                proof {
                    assert(false);
                }
                return Err(TreeError::KeyError(e));
            },
        };
        let child_selector = ChildSelector::new(bit);
        let child_hash = match current.child_hash(&child_selector) {
            Ok(h) => h.clone(),
            Err(e) => {
                return Err(TreeError::NodeError(e));
            },
        };
        let sub = self.insert_at(&child_hash, key, value, key_index + 1);
        let (child_node, old_node, changed) = match sub {
            Ok(t) => t,
            Err(e) => {
                return Err(e);
            },
        };
        if !changed {
            return Ok((current, old_node, false));
        }
        let new_ref = if child_node.is_default() {
            NodeHash::Default(clone_bytes(child_node.hash()))
        } else {
            NodeHash::InMemory(clone_bytes(child_node.hash()))
        };
        let mut updated = current;
        match updated.set_child_hash(&child_selector, new_ref) {
            Ok(()) => {},
            Err(e) => {
                proof {
                    assert(false);
                }
                return Err(TreeError::NodeError(e));
            },
        }
        if !updated.is_default() {
            self.storage.insert(updated.clone());
        }
        self.remove_node(current_hash);
        Ok((updated, old_node, true))
    }

    /// Inserts a value at the key and hands back the value the leaf held
    /// before. Nothing reaches the store until `commit`. Inserting the empty
    /// value removes the leaf; see [`Self::remove`].
    pub fn insert(&mut self, key: &[u8], value: Vec<u8>) -> (r: Result<Option<Vec<u8>>, TreeError>)
        requires
            old(self).wf(),
        ensures
            final(self).wf(),
            final(self).db_view() == old(self).db_view(),
            final(self).root_bytes() == old(self).root_bytes(),
            final(self).ladder_view() == old(self).ladder_view(),
            final(self).depth_bytes() == old(self).depth_bytes(),
            ({
                if key@.len() != old(self).depth_bytes() {
                    &&& final(self).st() == old(self).st()
                    &&& final(self).root_view() == old(self).root_view()
                    &&& r matches Err(e) && e@ == TreeErrorV::KeyError(
                        KeyErrorV::IncorrectKeySize(old(self).depth_bytes(), key@.len() as int),
                    )
                } else {
                    let (res, st2, root2) = spec_insert(
                        old(self).db_view(),
                        old(self).ladder_view(),
                        old(self).st(),
                        old(self).root_view(),
                        key@,
                        value@,
                    );
                    &&& final(self).st() == st2
                    &&& final(self).root_view() == root2
                    &&& match r {
                        Ok(v) => res == Ok::<Option<Seq<u8>>, TreeErrorV>(opt_bytes_view(v)),
                        Err(e) => res == Err::<Option<Seq<u8>>, TreeErrorV>(e@),
                    }
                }
            }),
    {
        let k = match Key::new(key, self.depth) {
            Ok(k) => k,
            Err(e) => {
                return Err(TreeError::KeyError(e));
            },
        };
        let current_root = self.root_handle.clone();
        let (new_root, old_node, changed) = match self.insert_at(&current_root, &k, value.as_slice(), 0) {
            Ok(t) => t,
            Err(e) => {
                return Err(e);
            },
        };
        if changed {
            self.remove_node(&current_root);
            if new_root.is_default() {
                self.root_handle = NodeHash::Default(clone_bytes(new_root.hash()));
            } else {
                self.root_handle = NodeHash::InMemory(clone_bytes(new_root.hash()));
                self.storage.insert(new_root);
            }
        }
        Ok(old_node)
    }

    /// Removes the value at the key by inserting the empty value: the leaf
    /// becomes the default and empty subtrees collapse up the path.
    pub fn remove(&mut self, key: &[u8]) -> (r: Result<Option<Vec<u8>>, TreeError>)
        requires
            old(self).wf(),
        ensures
            final(self).wf(),
            final(self).db_view() == old(self).db_view(),
            final(self).root_bytes() == old(self).root_bytes(),
            final(self).ladder_view() == old(self).ladder_view(),
            final(self).depth_bytes() == old(self).depth_bytes(),
            ({
                if key@.len() != old(self).depth_bytes() {
                    &&& final(self).st() == old(self).st()
                    &&& final(self).root_view() == old(self).root_view()
                    &&& r matches Err(e) && e@ == TreeErrorV::KeyError(
                        KeyErrorV::IncorrectKeySize(old(self).depth_bytes(), key@.len() as int),
                    )
                } else {
                    let (res, st2, root2) = spec_insert(
                        old(self).db_view(),
                        old(self).ladder_view(),
                        old(self).st(),
                        old(self).root_view(),
                        key@,
                        Seq::empty(),
                    );
                    &&& final(self).st() == st2
                    &&& final(self).root_view() == root2
                    &&& match r {
                        Ok(v) => res == Ok::<Option<Seq<u8>>, TreeErrorV>(opt_bytes_view(v)),
                        Err(e) => res == Err::<Option<Seq<u8>>, TreeErrorV>(e@),
                    }
                }
            }),
    {
        let empty: Vec<u8> = Vec::new();
        proof {
            assert(empty@ =~= Seq::<u8>::empty());
        }
        self.insert(key, empty)
    }
}

/// The view of an optional byte vector.
pub open spec fn opt_bytes_view(o: Option<Vec<u8>>) -> Option<Seq<u8>> {
    match o {
        Some(v) => Some(v@),
        None => None,
    }
}

/// One emplacement, on a store entry.
pub open spec fn spec_emplace_once(
    e: Option<(Seq<u8>, usize)>,
    bytes: Seq<u8>,
) -> Option<(Seq<u8>, usize)> {
    match e {
        None => Some((bytes, 1usize)),
        Some((b, c)) => Some((b, sat_inc(c))),
    }
}

/// One removal, on a store entry.
pub open spec fn spec_remove_once(e: Option<(Seq<u8>, usize)>) -> Option<(Seq<u8>, usize)> {
    match e {
        None => None,
        Some((b, c)) => if c > 1 {
            Some((b, (c - 1) as usize))
        } else {
            None
        },
    }
}

/// Emplacing once more after `n` emplacements is emplacing `n + 1` times.
proof fn lemma_emplace_n_snoc(e: Option<(Seq<u8>, usize)>, bytes: Seq<u8>, n: nat)
    ensures
        spec_emplace_n(e, bytes, n + 1) == spec_emplace_once(spec_emplace_n(e, bytes, n), bytes),
    decreases n,
{
    reveal_with_fuel(spec_emplace_n, 2);
    if n > 0 {
        lemma_emplace_n_snoc(spec_emplace_once(e, bytes), bytes, (n - 1) as nat);
    }
}

/// Removing once more after `n` removals is removing `n + 1` times.
proof fn lemma_remove_n_snoc(e: Option<(Seq<u8>, usize)>, n: nat)
    ensures
        spec_remove_n(e, n + 1) == spec_remove_once(spec_remove_n(e, n)),
    decreases n,
{
    reveal_with_fuel(spec_remove_n, 2);
    if n > 0 {
        lemma_remove_n_snoc(spec_remove_once(e), (n - 1) as nat);
    }
}

/// Whether some entry among the first `n` of the list holds the key.
pub open spec fn key_in_prefix<V>(s: Seq<(Vec<u8>, V)>, n: int, h: Seq<u8>) -> bool {
    exists|j: int| 0 <= j < n && s[j].0@ == h
}

/// Decoding the encoding of a well-formed node, when it decodes at all,
/// recomputes the node's own hash.
pub proof fn lemma_encode_decode_hash(n: NodeV)
    requires
        n.wf(),
    ensures
        crate::node::spec_decode(spec_encode(n)) matches Ok(d) ==> d.spec_hash() == n.spec_hash(),
{
    let e = spec_encode(n);
    match n {
        NodeV::Value { hash, value } => {
            if value.len() > 0 {
                assert(e.skip(1) =~= value);
            }
        },
        NodeV::Inner { hash, left, right } => {
            assert(e.len() == 2 * crate::hasher::HASH_LENGTH + 1);
            assert(e.subrange(1, 1 + crate::hasher::HASH_LENGTH as int) =~= left.spec_hash());
            assert(e.subrange(
                1 + crate::hasher::HASH_LENGTH as int,
                1 + 2 * crate::hasher::HASH_LENGTH as int,
            ) =~= right.spec_hash());
        },
    }
}

/// The bytes a run of emplacements leaves under a hash: what was already
/// there, or the bytes emplaced.
proof fn lemma_emplace_n_bytes(e: Option<(Seq<u8>, usize)>, bytes: Seq<u8>, n: nat)
    ensures
        spec_emplace_n(e, bytes, n) matches Some(p) ==> (p.0 == bytes || (e matches Some(q)
            && p.0 == q.0)),
    decreases n,
{
    if n > 0 {
        lemma_emplace_n_bytes(spec_emplace_once(e, bytes), bytes, (n - 1) as nat);
    }
}

/// Removals never change the bytes an entry holds.
proof fn lemma_remove_n_bytes(e: Option<(Seq<u8>, usize)>, n: nat)
    ensures
        spec_remove_n(e, n) matches Some(p) ==> (e matches Some(q) && p.0 == q.0),
    decreases n,
{
    if n > 0 {
        lemma_remove_n_bytes(spec_remove_once(e), (n - 1) as nat);
    }
}

/// Hash consistency of the store survives commit: every entry the committed
/// store holds either survives from the old store or is the canonical
/// encoding of an overlay node stored under that node's own hash, so a
/// decodable entry always decodes to a node whose hash is its key.
pub proof fn lemma_commit_preserves_consistency(
    db: Map<Seq<u8>, (Seq<u8>, usize)>,
    ov: Map<Seq<u8>, (NodeV, usize)>,
    death: Map<Seq<u8>, usize>,
    db2: Map<Seq<u8>, (Seq<u8>, usize)>,
)
    requires
        spec_committed_db(db, ov, death, db2),
        forall|h: Seq<u8>| #[trigger] db.contains_key(h) ==> match crate::node::spec_decode(
            db[h].0,
        ) {
            Ok(n) => n.spec_hash() == h,
            Err(_) => true,
        },
        storage_wf(ov),
    ensures
        forall|h: Seq<u8>| #[trigger] db2.contains_key(h) ==> match crate::node::spec_decode(
            db2[h].0,
        ) {
            Ok(n) => n.spec_hash() == h,
            Err(_) => true,
        },
{
    assert forall|h: Seq<u8>| #[trigger] db2.contains_key(h) implies match crate::node::spec_decode(
        db2[h].0,
    ) {
        Ok(n) => n.spec_hash() == h,
        Err(_) => true,
    } by {
        assert(spec_db_at(db2, h) == spec_commit_key(
            spec_db_at(db, h),
            spec_ov_at(ov, h),
            spec_death_at(death, h),
        ));
        let e0 = spec_db_at(db, h);
        if ov.contains_key(h) {
            let node = ov[h].0;
            let ins = ov[h].1;
            let bytes = spec_encode(node);
            lemma_encode_decode_hash(node);
            match spec_death_at(death, h) {
                Some(del) => {
                    if ins > del {
                        lemma_emplace_n_bytes(e0, bytes, (ins - del) as nat);
                    } else if ins < del {
                        lemma_remove_n_bytes(e0, (del - ins) as nat);
                    }
                },
                None => {
                    lemma_emplace_n_bytes(e0, bytes, ins as nat);
                },
            }
        } else {
            match spec_death_at(death, h) {
                Some(del) => {
                    lemma_remove_n_bytes(e0, del as nat);
                },
                None => {},
            }
        }
    }
}

impl TreeDBMut {
    /// Applies the net effect for one overlay entry to the store: `extra`
    /// emplacements of the node's encoding, under the node's hash.
    fn emplace_n(&mut self, hash: &Vec<u8>, bytes: &Vec<u8>, extra: usize)
        ensures
            final(self).wf() == old(self).wf(),
            final(self).ladder_view() == old(self).ladder_view(),
            final(self).depth_bytes() == old(self).depth_bytes(),
            final(self).recorder_view() == old(self).recorder_view(),
            final(self).root_bytes() == old(self).root_bytes(),
            final(self).root_view() == old(self).root_view(),
            final(self).overlay_view() == old(self).overlay_view(),
            final(self).death_view() == old(self).death_view(),
            spec_db_at(final(self).db_view(), hash@) == spec_emplace_n(
                spec_db_at(old(self).db_view(), hash@),
                bytes@,
                extra as nat,
            ),
            forall|h2: Seq<u8>|
                #![trigger spec_db_at(final(self).db_view(), h2)]
                h2 != hash@ ==> spec_db_at(final(self).db_view(), h2) == spec_db_at(
                    old(self).db_view(),
                    h2,
                ),
    {
        let mut t: usize = 0;
        while t < extra
            invariant
                t <= extra,
                self.wf() == old(self).wf(),
                self.ladder_view() == old(self).ladder_view(),
                self.depth_bytes() == old(self).depth_bytes(),
                self.recorder_view() == old(self).recorder_view(),
                self.root_bytes() == old(self).root_bytes(),
                self.root_view() == old(self).root_view(),
                self.overlay_view() == old(self).overlay_view(),
                self.death_view() == old(self).death_view(),
                spec_db_at(self.db_view(), hash@) == spec_emplace_n(
                    spec_db_at(old(self).db_view(), hash@),
                    bytes@,
                    t as nat,
                ),
                forall|h2: Seq<u8>|
                    #![trigger spec_db_at(self.db_view(), h2)]
                    h2 != hash@ ==> spec_db_at(self.db_view(), h2) == spec_db_at(
                        old(self).db_view(),
                        h2,
                    ),
            decreases extra - t,
        {
            let ghost before = self.db_view();
            self.db.emplace(clone_bytes(hash), clone_bytes(bytes));
            proof {
                lemma_emplace_n_snoc(spec_db_at(old(self).db_view(), hash@), bytes@, t as nat);
                assert(spec_db_at(self.db_view(), hash@) == spec_emplace_once(
                    spec_db_at(before, hash@),
                    bytes@,
                ));
                assert forall|h2: Seq<u8>| h2 != hash@ implies #[trigger] spec_db_at(
                    self.db_view(),
                    h2,
                ) == spec_db_at(before, h2) by {}
            }
            t = t + 1;
        }
    }

    /// Applies `extra` removals of a hash to the store.
    fn remove_n(&mut self, hash: &Vec<u8>, extra: usize)
        ensures
            final(self).wf() == old(self).wf(),
            final(self).ladder_view() == old(self).ladder_view(),
            final(self).depth_bytes() == old(self).depth_bytes(),
            final(self).recorder_view() == old(self).recorder_view(),
            final(self).root_bytes() == old(self).root_bytes(),
            final(self).root_view() == old(self).root_view(),
            final(self).overlay_view() == old(self).overlay_view(),
            final(self).death_view() == old(self).death_view(),
            spec_db_at(final(self).db_view(), hash@) == spec_remove_n(
                spec_db_at(old(self).db_view(), hash@),
                extra as nat,
            ),
            forall|h2: Seq<u8>|
                #![trigger spec_db_at(final(self).db_view(), h2)]
                h2 != hash@ ==> spec_db_at(final(self).db_view(), h2) == spec_db_at(
                    old(self).db_view(),
                    h2,
                ),
    {
        let mut t: usize = 0;
        while t < extra
            invariant
                t <= extra,
                self.wf() == old(self).wf(),
                self.ladder_view() == old(self).ladder_view(),
                self.depth_bytes() == old(self).depth_bytes(),
                self.recorder_view() == old(self).recorder_view(),
                self.root_bytes() == old(self).root_bytes(),
                self.root_view() == old(self).root_view(),
                self.overlay_view() == old(self).overlay_view(),
                self.death_view() == old(self).death_view(),
                spec_db_at(self.db_view(), hash@) == spec_remove_n(
                    spec_db_at(old(self).db_view(), hash@),
                    t as nat,
                ),
                forall|h2: Seq<u8>|
                    #![trigger spec_db_at(self.db_view(), h2)]
                    h2 != hash@ ==> spec_db_at(self.db_view(), h2) == spec_db_at(
                        old(self).db_view(),
                        h2,
                    ),
            decreases extra - t,
        {
            let ghost before = self.db_view();
            self.db.remove(hash.as_slice());
            proof {
                lemma_remove_n_snoc(spec_db_at(old(self).db_view(), hash@), t as nat);
                assert(spec_db_at(self.db_view(), hash@) == spec_remove_once(
                    spec_db_at(before, hash@),
                ));
                assert forall|h2: Seq<u8>| h2 != hash@ implies #[trigger] spec_db_at(
                    self.db_view(),
                    h2,
                ) == spec_db_at(before, h2) by {}
            }
            t = t + 1;
        }
    }

    /// Reconciles the overlay and the death row against the store and
    /// publishes the root: for each hash, pending insertions and deletions
    /// cancel and only the excess is emplaced into or removed from the
    /// store, so that reference counts the store held before the session are
    /// preserved exactly. The overlay and the death row come out empty, the
    /// root cell takes the current root hash, and the root reference becomes
    /// database-resident.
    pub fn commit(&mut self)
        requires
            old(self).wf(),
        ensures
            final(self).wf(),
            final(self).ladder_view() == old(self).ladder_view(),
            final(self).depth_bytes() == old(self).depth_bytes(),
            final(self).recorder_view() == old(self).recorder_view(),
            final(self).overlay_view() == Map::<Seq<u8>, (NodeV, usize)>::empty(),
            final(self).death_view() == Map::<Seq<u8>, usize>::empty(),
            final(self).root_bytes() == old(self).root_view().spec_hash(),
            final(self).root_view() == NodeHashV::Database(old(self).root_view().spec_hash()),
            spec_committed_db(
                old(self).db_view(),
                old(self).overlay_view(),
                old(self).death_view(),
                final(self).db_view(),
            ),
    {
        let ghost db_start = self.db_view();
        let ghost ov0 = self.overlay_view();
        let ghost death0 = self.death_view();
        let entries = self.storage.drain();
        let ghost es = entries@;
        let mut idx: usize = 0;
        while idx < entries.len()
            invariant
                self.wf(),
                self.ladder_view() == old(self).ladder_view(),
                self.depth_bytes() == old(self).depth_bytes(),
                self.recorder_view() == old(self).recorder_view(),
                self.root_bytes() == old(self).root_bytes(),
                self.root_view() == old(self).root_view(),
                self.overlay_view() == Map::<Seq<u8>, (NodeV, usize)>::empty(),
                es == entries@,
                alist_keys_distinct(es),
                alist_view(es) == ov0,
                idx <= es.len(),
                db_start == old(self).db_view(),
                ov0 == old(self).overlay_view(),
                death0 == old(self).death_view(),
                forall|h: Seq<u8>|
                    #![trigger spec_db_at(self.db_view(), h)]
                    spec_db_at(self.db_view(), h) == (if key_in_prefix(es, idx as int, h) {
                        spec_commit_key(
                            spec_db_at(db_start, h),
                            spec_ov_at(ov0, h),
                            spec_death_at(death0, h),
                        )
                    } else {
                        spec_db_at(db_start, h)
                    }),
                forall|h: Seq<u8>|
                    #![trigger spec_death_at(self.death_view(), h)]
                    spec_death_at(self.death_view(), h) == (if key_in_prefix(es, idx as int, h) {
                        None::<usize>
                    } else {
                        spec_death_at(death0, h)
                    }),
            decreases es.len() - idx,
        {
            let ghost h = es[idx as int].0@;
            let ghost db_b = self.db_view();
            let ghost death_b = self.death_view();
            proof {
                crate::bytemap::lemma_alist_at(es, idx as int);
                assert(spec_ov_at(ov0, h) == Some((es[idx as int].1.0@, es[idx as int].1.1)));
                assert(!key_in_prefix(es, idx as int, h));
                assert(key_in_prefix(es, idx as int + 1, h));
                assert(spec_db_at(db_b, h) == spec_db_at(db_start, h));
                assert(spec_death_at(death_b, h) == spec_death_at(death0, h));
            }
            let entry_key = clone_bytes(&entries[idx].0);
            let node: &Node = &entries[idx].1.0;
            let insert_count: usize = entries[idx].1.1;
            let bytes = node.encode();
            match self.death_row.remove(entry_key.as_slice()) {
                Some(death_count) => {
                    proof {
                        assert(spec_death_at(death0, h) == Some(death_count));
                    }
                    if insert_count > death_count {
                        self.emplace_n(&entry_key, &bytes, insert_count - death_count);
                    } else if insert_count < death_count {
                        self.remove_n(&entry_key, death_count - insert_count);
                    }
                    proof {
                        assert(spec_db_at(self.db_view(), h) == spec_commit_key(
                            spec_db_at(db_start, h),
                            spec_ov_at(ov0, h),
                            spec_death_at(death0, h),
                        ));
                    }
                },
                None => {
                    proof {
                        assert(spec_death_at(death0, h) is None);
                    }
                    self.emplace_n(&entry_key, &bytes, insert_count);
                    proof {
                        assert(spec_db_at(self.db_view(), h) == spec_commit_key(
                            spec_db_at(db_start, h),
                            spec_ov_at(ov0, h),
                            spec_death_at(death0, h),
                        ));
                    }
                },
            }
            proof {
                assert(!self.death_view().contains_key(h));
                assert forall|h2: Seq<u8>| h2 != h implies #[trigger] spec_db_at(
                    self.db_view(),
                    h2,
                ) == spec_db_at(db_b, h2) by {}
                assert forall|h2: Seq<u8>| h2 != h implies #[trigger] spec_death_at(
                    self.death_view(),
                    h2,
                ) == spec_death_at(death_b, h2) by {}
                assert forall|h2: Seq<u8>|
                    #![trigger spec_db_at(self.db_view(), h2)]
                    spec_db_at(self.db_view(), h2) == (if key_in_prefix(es, idx as int + 1, h2) {
                        spec_commit_key(
                            spec_db_at(db_start, h2),
                            spec_ov_at(ov0, h2),
                            spec_death_at(death0, h2),
                        )
                    } else {
                        spec_db_at(db_start, h2)
                    }) by {
                    if h2 != h {
                        if key_in_prefix(es, idx as int + 1, h2) {
                            let j = choose|j: int| 0 <= j < idx as int + 1 && es[j].0@ == h2;
                            assert(0 <= j < idx as int && es[j].0@ == h2);
                            assert(key_in_prefix(es, idx as int, h2));
                        } else {
                            assert(!key_in_prefix(es, idx as int, h2));
                        }
                        assert(spec_db_at(db_b, h2) == (if key_in_prefix(es, idx as int, h2) {
                            spec_commit_key(
                                spec_db_at(db_start, h2),
                                spec_ov_at(ov0, h2),
                                spec_death_at(death0, h2),
                            )
                        } else {
                            spec_db_at(db_start, h2)
                        }));
                    }
                }
                assert forall|h2: Seq<u8>|
                    #![trigger spec_death_at(self.death_view(), h2)]
                    spec_death_at(self.death_view(), h2) == (if key_in_prefix(
                        es,
                        idx as int + 1,
                        h2,
                    ) {
                        None::<usize>
                    } else {
                        spec_death_at(death0, h2)
                    }) by {
                    if h2 != h {
                        if key_in_prefix(es, idx as int + 1, h2) {
                            let j = choose|j: int| 0 <= j < idx as int + 1 && es[j].0@ == h2;
                            assert(0 <= j < idx as int && es[j].0@ == h2);
                            assert(key_in_prefix(es, idx as int, h2));
                        } else {
                            assert(!key_in_prefix(es, idx as int, h2));
                        }
                        assert(spec_death_at(death_b, h2) == (if key_in_prefix(
                            es,
                            idx as int,
                            h2,
                        ) {
                            None::<usize>
                        } else {
                            spec_death_at(death0, h2)
                        }));
                    }
                }
            }
            idx = idx + 1;
        }
        proof {
            assert(idx == es.len());
        }
        let ghost death_mid_pre = self.death_view();
        let ghost db_mid_pre = self.db_view();
        let death_entries = self.death_row.drain();
        let ghost ds = death_entries@;
        let ghost death_mid = alist_view(ds);
        let ghost db_mid = self.db_view();
        proof {
            assert(death_mid == death_mid_pre);
            assert(db_mid == db_mid_pre);
            assert forall|h: Seq<u8>|
                #![trigger spec_death_at(death_mid, h)]
                spec_death_at(death_mid, h) == (if key_in_prefix(es, es.len() as int, h) {
                    None::<usize>
                } else {
                    spec_death_at(death0, h)
                }) by {
                assert(spec_death_at(death_mid_pre, h) == (if key_in_prefix(
                    es,
                    idx as int,
                    h,
                ) {
                    None::<usize>
                } else {
                    spec_death_at(death0, h)
                }));
            }
            assert forall|h: Seq<u8>|
                #![trigger spec_db_at(db_mid, h)]
                spec_db_at(db_mid, h) == (if key_in_prefix(es, es.len() as int, h) {
                    spec_commit_key(
                        spec_db_at(db_start, h),
                        spec_ov_at(ov0, h),
                        spec_death_at(death0, h),
                    )
                } else {
                    spec_db_at(db_start, h)
                }) by {
                assert(spec_db_at(db_mid_pre, h) == (if key_in_prefix(es, idx as int, h) {
                    spec_commit_key(
                        spec_db_at(db_start, h),
                        spec_ov_at(ov0, h),
                        spec_death_at(death0, h),
                    )
                } else {
                    spec_db_at(db_start, h)
                }));
            }
        }
        let mut jdx: usize = 0;
        while jdx < death_entries.len()
            invariant
                self.wf(),
                self.ladder_view() == old(self).ladder_view(),
                self.depth_bytes() == old(self).depth_bytes(),
                self.recorder_view() == old(self).recorder_view(),
                self.root_bytes() == old(self).root_bytes(),
                self.root_view() == old(self).root_view(),
                self.overlay_view() == Map::<Seq<u8>, (NodeV, usize)>::empty(),
                self.death_view() == Map::<Seq<u8>, usize>::empty(),
                ds == death_entries@,
                alist_keys_distinct(ds),
                alist_view(ds) == death_mid,
                jdx <= ds.len(),
                db_start == old(self).db_view(),
                ov0 == old(self).overlay_view(),
                death0 == old(self).death_view(),
                forall|h: Seq<u8>|
                    #![trigger spec_death_at(death_mid, h)]
                    spec_death_at(death_mid, h) == (if key_in_prefix(es, es.len() as int, h) {
                        None::<usize>
                    } else {
                        spec_death_at(death0, h)
                    }),
                forall|h: Seq<u8>|
                    #![trigger spec_db_at(db_mid, h)]
                    spec_db_at(db_mid, h) == (if key_in_prefix(es, es.len() as int, h) {
                        spec_commit_key(
                            spec_db_at(db_start, h),
                            spec_ov_at(ov0, h),
                            spec_death_at(death0, h),
                        )
                    } else {
                        spec_db_at(db_start, h)
                    }),
                forall|h: Seq<u8>|
                    #![trigger spec_db_at(self.db_view(), h)]
                    spec_db_at(self.db_view(), h) == (if key_in_prefix(ds, jdx as int, h) {
                        spec_remove_n(spec_db_at(db_mid, h), spec_death_at(death_mid, h)->Some_0 as nat)
                    } else {
                        spec_db_at(db_mid, h)
                    }),
            decreases ds.len() - jdx,
        {
            let ghost h = ds[jdx as int].0@;
            let ghost db_b = self.db_view();
            proof {
                crate::bytemap::lemma_alist_at(ds, jdx as int);
                assert(spec_death_at(death_mid, h) == Some(ds[jdx as int].1));
                assert(!key_in_prefix(ds, jdx as int, h));
                assert(key_in_prefix(ds, jdx as int + 1, h));
                assert(spec_db_at(db_b, h) == spec_db_at(db_mid, h));
            }
            let death_key = clone_bytes(&death_entries[jdx].0);
            let death_count: usize = death_entries[jdx].1;
            self.remove_n(&death_key, death_count);
            proof {
                assert(spec_db_at(self.db_view(), h) == spec_remove_n(
                    spec_db_at(db_mid, h),
                    death_count as nat,
                ));
                assert forall|h2: Seq<u8>| h2 != h implies #[trigger] spec_db_at(
                    self.db_view(),
                    h2,
                ) == spec_db_at(db_b, h2) by {}
                assert forall|h2: Seq<u8>|
                    #![trigger spec_db_at(self.db_view(), h2)]
                    spec_db_at(self.db_view(), h2) == (if key_in_prefix(ds, jdx as int + 1, h2) {
                        spec_remove_n(
                            spec_db_at(db_mid, h2),
                            spec_death_at(death_mid, h2)->Some_0 as nat,
                        )
                    } else {
                        spec_db_at(db_mid, h2)
                    }) by {
                    if h2 != h {
                        if key_in_prefix(ds, jdx as int + 1, h2) {
                            let j = choose|j: int| 0 <= j < jdx as int + 1 && ds[j].0@ == h2;
                            assert(0 <= j < jdx as int && ds[j].0@ == h2);
                            assert(key_in_prefix(ds, jdx as int, h2));
                        } else {
                            assert(!key_in_prefix(ds, jdx as int, h2));
                        }
                        assert(spec_db_at(db_b, h2) == (if key_in_prefix(ds, jdx as int, h2) {
                            spec_remove_n(
                                spec_db_at(db_mid, h2),
                                spec_death_at(death_mid, h2)->Some_0 as nat,
                            )
                        } else {
                            spec_db_at(db_mid, h2)
                        }));
                    }
                }
            }
            jdx = jdx + 1;
        }
        proof {
            assert forall|h: Seq<u8>|
                #![trigger spec_db_at(self.db_view(), h)]
                spec_db_at(self.db_view(), h) == spec_commit_key(
                    spec_db_at(db_start, h),
                    spec_ov_at(ov0, h),
                    spec_death_at(death0, h),
                ) by {
                assert(jdx == ds.len());
                assert(spec_death_at(death_mid, h) == (if key_in_prefix(es, es.len() as int, h) {
                    None::<usize>
                } else {
                    spec_death_at(death0, h)
                }));
                assert(spec_db_at(db_mid, h) == (if key_in_prefix(es, es.len() as int, h) {
                    spec_commit_key(
                        spec_db_at(db_start, h),
                        spec_ov_at(ov0, h),
                        spec_death_at(death0, h),
                    )
                } else {
                    spec_db_at(db_start, h)
                }));
                assert(spec_db_at(self.db_view(), h) == (if key_in_prefix(
                    ds,
                    jdx as int,
                    h,
                ) {
                    spec_remove_n(
                        spec_db_at(db_mid, h),
                        spec_death_at(death_mid, h)->Some_0 as nat,
                    )
                } else {
                    spec_db_at(db_mid, h)
                }));
                crate::bytemap::lemma_alist_contains(es, h);
                crate::bytemap::lemma_alist_contains(ds, h);
                if key_in_prefix(es, es.len() as int, h) {
                    assert(!key_in_prefix(ds, ds.len() as int, h));
                } else {
                    if death_mid.contains_key(h) {
                        assert(key_in_prefix(ds, ds.len() as int, h));
                        assert(spec_ov_at(ov0, h) is None) by {
                            crate::bytemap::lemma_alist_contains(es, h);
                            if ov0.contains_key(h) {
                                assert(key_in_prefix(es, es.len() as int, h));
                            }
                        }
                    } else {
                        assert(!key_in_prefix(ds, ds.len() as int, h));
                        assert(spec_death_at(death0, h) is None);
                        assert(spec_ov_at(ov0, h) is None) by {
                            if ov0.contains_key(h) {
                                assert(key_in_prefix(es, es.len() as int, h));
                            }
                        }
                    }
                }
            }
        }
        self.root = clone_bytes(self.root_handle.hash());
        self.root_handle = NodeHash::Database(clone_bytes(&self.root));
    }

    /// Walks from the root to the leaf the key addresses, resolving through
    /// the overlay, the store and the ladder. With `with_proof` the walk
    /// pushes each level's sibling hash and descends even through default
    /// subtrees; without it, a default child ends the walk early with no
    /// leaf.
    fn lookup_leaf_node(&mut self, key: &Key, with_proof: bool) -> (r: Result<
        (Option<Node>, Vec<Vec<u8>>),
        TreeError,
    >)
        requires
            old(self).wf(),
            key@.len() == old(self).depth_bytes(),
        ensures
            final(self).wf(),
            final(self).db_view() == old(self).db_view(),
            final(self).root_bytes() == old(self).root_bytes(),
            final(self).root_view() == old(self).root_view(),
            final(self).overlay_view() == old(self).overlay_view(),
            final(self).death_view() == old(self).death_view(),
            final(self).ladder_view() == old(self).ladder_view(),
            final(self).depth_bytes() == old(self).depth_bytes(),
            ({
                let o = spec_lookup_leaf(
                    key@,
                    old(self).root_view(),
                    old(self).db_view(),
                    Some(old(self).overlay_view()),
                    old(self).ladder_view(),
                    with_proof,
                );
                &&& final(self).recorder_view() == spec_rec_after(
                    old(self).recorder_view(),
                    o.recorded,
                )
                &&& match r {
                    Ok((leaf, sibs)) => {
                        &&& match leaf {
                            Some(l) => o.result == Ok::<Option<NodeV>, TreeErrorV>(Some(l@))
                                && l@.wf(),
                            None => o.result == Ok::<Option<NodeV>, TreeErrorV>(None),
                        }
                        &&& views_of(sibs@) == o.siblings
                    },
                    Err(e) => o.result == Err::<Option<NodeV>, TreeErrorV>(e@),
                }
            }),
    {
        let ghost db0 = self.db_view();
        let ghost ov0 = self.overlay_view();
        let ghost ladder0 = self.ladder_view();
        let ghost rec0 = self.recorder_view();
        let ghost full = spec_lookup_leaf(
            key@,
            self.root_view(),
            db0,
            Some(ov0),
            ladder0,
            with_proof,
        );
        let root_ref = self.root_handle.clone();
        let mut current = match self.lookup(&root_ref) {
            Ok(n) => n,
            Err(e) => {
                return Err(e);
            },
        };
        proof {
            lemma_rec_after_assoc(
                rec0,
                spec_resolve_recorded(root_ref@, db0, Some(ov0), ladder0),
                spec_walk(key@, 0, current@, db0, Some(ov0), ladder0, with_proof).recorded,
            );
        }
        let n_bits = 8 * self.depth;
        let mut sibs: Vec<Vec<u8>> = Vec::new();
        let mut i: usize = 0;
        proof {
            assert(views_of(sibs@) + spec_walk(
                key@,
                0,
                current@,
                db0,
                Some(ov0),
                ladder0,
                with_proof,
            ).siblings =~= spec_walk(
                key@,
                0,
                current@,
                db0,
                Some(ov0),
                ladder0,
                with_proof,
            ).siblings);
        }
        while i < n_bits
            invariant
                self.wf(),
                self.db_view() == db0,
                self.root_bytes() == old(self).root_bytes(),
                self.root_view() == old(self).root_view(),
                self.overlay_view() == ov0,
                self.death_view() == old(self).death_view(),
                self.ladder_view() == ladder0,
                self.depth_bytes() == old(self).depth_bytes(),
                rec0 == old(self).recorder_view(),
                db0 == old(self).db_view(),
                ov0 == old(self).overlay_view(),
                ladder0 == old(self).ladder_view(),
                full == spec_lookup_leaf(
                    key@,
                    old(self).root_view(),
                    db0,
                    Some(ov0),
                    ladder0,
                    with_proof,
                ),
                n_bits == 8 * old(self).depth_bytes(),
                key@.len() == old(self).depth_bytes(),
                i <= n_bits,
                current@.wf(),
                !with_proof ==> sibs@.len() == 0,
                ({
                    let w = spec_walk(
                        key@,
                        i as int,
                        current@,
                        db0,
                        Some(ov0),
                        ladder0,
                        with_proof,
                    );
                    &&& full.result == w.result
                    &&& full.siblings == views_of(sibs@) + w.siblings
                    &&& spec_rec_after(self.recorder_view(), w.recorded) == spec_rec_after(
                        rec0,
                        full.recorded,
                    )
                }),
            decreases n_bits - i,
        {
            let ghost w_i = spec_walk(
                key@,
                i as int,
                current@,
                db0,
                Some(ov0),
                ladder0,
                with_proof,
            );
            let ghost rec_i = self.recorder_view();
            let bit = match key.bit(i) {
                Ok(b) => b,
                Err(e) => {
                    proof {
                        assert(false);
                    }
                    return Err(TreeError::KeyError(e));
                },
            };
            let child_selector = ChildSelector::new(bit);
            let child = match current.child_hash(&child_selector) {
                Ok(h) => h.clone(),
                Err(e) => {
                    proof {
                        lemma_rec_after_empty(rec_i);
                    }
                    return Err(TreeError::NodeError(e));
                },
            };
            proof {
                lemma_walk_step(key@, i as int, current@, db0, Some(ov0), ladder0, with_proof);
            }
            if child.is_default() && !with_proof {
                proof {
                    lemma_rec_after_empty(rec_i);
                    assert(views_of(sibs@) =~= full.siblings);
                }
                return Ok((None, sibs));
            }
            let ghost sibs_before = views_of(sibs@);
            if with_proof {
                let sib_sel = child_selector.sibling();
                let sib_ref = match current.child_hash(&sib_sel) {
                    Ok(h) => h,
                    Err(e) => {
                        proof {
                            assert(false);
                        }
                        return Err(TreeError::NodeError(e));
                    },
                };
                sibs.push(clone_bytes(sib_ref.hash()));
                proof {
                    assert(views_of(sibs@) =~= sibs_before.push(
                        current@.spec_child(
                            if child_selector == ChildSelector::Left {
                                ChildSelector::Right
                            } else {
                                ChildSelector::Left
                            },
                        ).spec_hash(),
                    ));
                }
            }
            let next = match self.lookup(&child) {
                Ok(n) => n,
                Err(e) => {
                    proof {
                        lemma_rec_after_empty(rec_i);
                    }
                    return Err(e);
                },
            };
            proof {
                let w_next = spec_walk(
                    key@,
                    i + 1,
                    next@,
                    db0,
                    Some(ov0),
                    ladder0,
                    with_proof,
                );
                lemma_rec_after_assoc(
                    rec_i,
                    spec_resolve_recorded(child@, db0, Some(ov0), ladder0),
                    w_next.recorded,
                );
                assert(views_of(sibs@) + w_next.siblings =~= sibs_before + w_i.siblings);
            }
            current = next;
            i = i + 1;
        }
        proof {
            let w_end = spec_walk(
                key@,
                i as int,
                current@,
                db0,
                Some(ov0),
                ladder0,
                with_proof,
            );
            lemma_rec_after_empty(self.recorder_view());
            assert(views_of(sibs@) + w_end.siblings =~= views_of(sibs@));
        }
        Ok((Some(current), sibs))
    }

    /// The value stored at the key, reading through the overlay and the
    /// store: `None` when the key's path runs into an empty subtree.
    pub fn value(&mut self, key: &[u8]) -> (r: Result<Option<Vec<u8>>, TreeError>)
        requires
            old(self).wf(),
        ensures
            final(self).wf(),
            final(self).db_view() == old(self).db_view(),
            final(self).root_bytes() == old(self).root_bytes(),
            final(self).root_view() == old(self).root_view(),
            final(self).overlay_view() == old(self).overlay_view(),
            final(self).death_view() == old(self).death_view(),
            final(self).ladder_view() == old(self).ladder_view(),
            final(self).depth_bytes() == old(self).depth_bytes(),
            ({
                let o = spec_lookup_leaf(
                    key@,
                    old(self).root_view(),
                    old(self).db_view(),
                    Some(old(self).overlay_view()),
                    old(self).ladder_view(),
                    false,
                );
                if key@.len() != old(self).depth_bytes() {
                    &&& final(self).recorder_view() == old(self).recorder_view()
                    &&& r matches Err(e) && e@ == TreeErrorV::KeyError(
                        KeyErrorV::IncorrectKeySize(old(self).depth_bytes(), key@.len() as int),
                    )
                } else {
                    &&& final(self).recorder_view() == spec_rec_after(
                        old(self).recorder_view(),
                        o.recorded,
                    )
                    &&& match r {
                        Ok(Some(v)) => o.result matches Ok(Some(l)) && l is Value && v@
                            == l->Value_value,
                        Ok(None) => o.result == Ok::<Option<NodeV>, TreeErrorV>(None),
                        Err(e) => match o.result {
                            Ok(Some(l)) => l is Inner && e@ == TreeErrorV::NodeError(
                                NodeErrorV::InvalidNodeType(NodeKindV::Inner, NodeKindV::Value),
                            ),
                            Ok(None) => false,
                            Err(e2) => e@ == e2,
                        },
                    }
                }
            }),
    {
        let k = match Key::new(key, self.depth) {
            Ok(k) => k,
            Err(e) => {
                return Err(TreeError::KeyError(e));
            },
        };
        match self.lookup_leaf_node(&k, false) {
            Ok((Some(node), _)) => match node.value() {
                Ok(v) => Ok(Some(clone_bytes(v))),
                Err(e) => Err(TreeError::NodeError(e)),
            },
            Ok((None, _)) => Ok(None),
            Err(e) => Err(e),
        }
    }

    /// The hash of the leaf node at the key: `None` when the key's path runs
    /// into an empty subtree.
    pub fn leaf(&mut self, key: &[u8]) -> (r: Result<Option<Vec<u8>>, TreeError>)
        requires
            old(self).wf(),
        ensures
            final(self).wf(),
            final(self).db_view() == old(self).db_view(),
            final(self).root_bytes() == old(self).root_bytes(),
            final(self).root_view() == old(self).root_view(),
            final(self).overlay_view() == old(self).overlay_view(),
            final(self).death_view() == old(self).death_view(),
            final(self).ladder_view() == old(self).ladder_view(),
            final(self).depth_bytes() == old(self).depth_bytes(),
            ({
                let o = spec_lookup_leaf(
                    key@,
                    old(self).root_view(),
                    old(self).db_view(),
                    Some(old(self).overlay_view()),
                    old(self).ladder_view(),
                    false,
                );
                if key@.len() != old(self).depth_bytes() {
                    &&& final(self).recorder_view() == old(self).recorder_view()
                    &&& r matches Err(e) && e@ == TreeErrorV::KeyError(
                        KeyErrorV::IncorrectKeySize(old(self).depth_bytes(), key@.len() as int),
                    )
                } else {
                    &&& final(self).recorder_view() == spec_rec_after(
                        old(self).recorder_view(),
                        o.recorded,
                    )
                    &&& match r {
                        Ok(Some(h)) => o.result matches Ok(Some(l)) && h@ == l.spec_hash(),
                        Ok(None) => o.result == Ok::<Option<NodeV>, TreeErrorV>(None),
                        Err(e) => o.result matches Err(e2) && e@ == e2,
                    }
                }
            }),
    {
        let k = match Key::new(key, self.depth) {
            Ok(k) => k,
            Err(e) => {
                return Err(TreeError::KeyError(e));
            },
        };
        match self.lookup_leaf_node(&k, false) {
            Ok((Some(node), _)) => Ok(Some(clone_bytes(node.hash()))),
            Ok((None, _)) => Ok(None),
            Err(e) => Err(e),
        }
    }

    /// An authenticated proof for the key against the tree's current
    /// (possibly uncommitted) root: the value found there, the current root
    /// hash, and the sibling hashes from the leaf's level up to the root's.
    pub fn merkle_proof(&mut self, key: &[u8]) -> (r: Result<
        (Option<Vec<u8>>, Vec<u8>, Vec<Vec<u8>>),
        TreeError,
    >)
        requires
            old(self).wf(),
        ensures
            final(self).wf(),
            final(self).db_view() == old(self).db_view(),
            final(self).root_bytes() == old(self).root_bytes(),
            final(self).root_view() == old(self).root_view(),
            final(self).overlay_view() == old(self).overlay_view(),
            final(self).death_view() == old(self).death_view(),
            final(self).ladder_view() == old(self).ladder_view(),
            final(self).depth_bytes() == old(self).depth_bytes(),
            ({
                let o = spec_lookup_leaf(
                    key@,
                    old(self).root_view(),
                    old(self).db_view(),
                    Some(old(self).overlay_view()),
                    old(self).ladder_view(),
                    true,
                );
                if key@.len() != old(self).depth_bytes() {
                    &&& final(self).recorder_view() == old(self).recorder_view()
                    &&& r matches Err(e) && e@ == TreeErrorV::KeyError(
                        KeyErrorV::IncorrectKeySize(old(self).depth_bytes(), key@.len() as int),
                    )
                } else {
                    &&& final(self).recorder_view() == spec_rec_after(
                        old(self).recorder_view(),
                        o.recorded,
                    )
                    &&& match r {
                        Ok((v, root_hash, sibs)) => {
                            &&& o.result matches Ok(Some(l)) && l is Value
                            &&& root_hash@ == old(self).root_view().spec_hash()
                            &&& views_of(sibs@) == o.siblings.reverse()
                            &&& sibs@.len() == 8 * old(self).depth_bytes()
                            &&& match v {
                                Some(vv) => o.result matches Ok(Some(l))
                                    && l->Value_value.len() > 0 && vv@ == l->Value_value,
                                None => o.result matches Ok(Some(l)) && l->Value_value.len()
                                    == 0,
                            }
                        },
                        Err(e) => match o.result {
                            Ok(Some(l)) => l is Inner && e@ == TreeErrorV::NodeError(
                                NodeErrorV::InvalidNodeType(NodeKindV::Inner, NodeKindV::Value),
                            ),
                            Ok(None) => false,
                            Err(e2) => e@ == e2,
                        },
                    }
                }
            }),
    {
        let k = match Key::new(key, self.depth) {
            Ok(k) => k,
            Err(e) => {
                return Err(TreeError::KeyError(e));
            },
        };
        let root_hash = clone_bytes(self.root_handle.hash());
        match self.lookup_leaf_node(&k, true) {
            Ok((Some(node), sibs)) => match node.value() {
                Ok(v) => {
                    let value = if v.len() == 0 {
                        None
                    } else {
                        Some(clone_bytes(v))
                    };
                    proof {
                        crate::lookup::lemma_walk_proof_len_leaf(
                            key@,
                            old(self).root_view(),
                            old(self).db_view(),
                            Some(old(self).overlay_view()),
                            old(self).ladder_view(),
                        );
                    }
                    let reversed = crate::treedb::reverse_list(sibs);
                    Ok((value, root_hash, reversed))
                },
                Err(e) => Err(TreeError::NodeError(e)),
            },
            Ok((None, _)) => {
                proof {
                    crate::lookup::lemma_walk_proof_len_leaf(
                        key@,
                        old(self).root_view(),
                        old(self).db_view(),
                        Some(old(self).overlay_view()),
                        old(self).ladder_view(),
                    );
                    assert(false);
                }
                Err(TreeError::DataError(DataError::InMemoryNotSupported))
            },
            Err(e) => Err(e),
        }
    }

    /// Recomputes the root from a value and a sibling list and compares it
    /// with the given root; see [`crate::treedb::TreeDB::verify`], whose
    /// check this is.
    pub fn verify(key: &[u8], value: &[u8], siblings: &[Vec<u8>], root: &[u8], depth: usize) -> (r:
        Result<bool, TreeError>)
        ensures
            match r {
                Ok(b) => {
                    &&& depth <= usize::MAX / 8
                    &&& key@.len() == depth
                    &&& b == (crate::treedb::spec_verify_hash(
                        key@,
                        value@,
                        views_of(siblings@),
                        8 * depth as int,
                    ) == root@)
                },
                Err(e) => if depth > usize::MAX / 8 {
                    e@ == TreeErrorV::DepthTooLarge(depth as int, usize::MAX as int / 8)
                } else {
                    key@.len() != depth && e@ == TreeErrorV::KeyError(
                        KeyErrorV::IncorrectKeySize(depth as int, key@.len() as int),
                    )
                },
            },
    {
        crate::treedb::TreeDB::verify(key, value, siblings, root, depth)
    }

    /// Commits any pending writes and returns the published root hash.
    pub fn root(&mut self) -> (r: &Vec<u8>)
        requires
            old(self).wf(),
        ensures
            final(self).wf(),
            final(self).ladder_view() == old(self).ladder_view(),
            final(self).depth_bytes() == old(self).depth_bytes(),
            final(self).recorder_view() == old(self).recorder_view(),
            final(self).overlay_view() == Map::<Seq<u8>, (NodeV, usize)>::empty(),
            final(self).death_view() == Map::<Seq<u8>, usize>::empty(),
            final(self).root_bytes() == old(self).root_view().spec_hash(),
            final(self).root_view() == NodeHashV::Database(old(self).root_view().spec_hash()),
            spec_committed_db(
                old(self).db_view(),
                old(self).overlay_view(),
                old(self).death_view(),
                final(self).db_view(),
            ),
            r@ == old(self).root_view().spec_hash(),
    {
        self.commit();
        &self.root
    }
}

} // verus!
