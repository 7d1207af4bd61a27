//! The immutable tree: reads over a backing store and a fixed root.

use vstd::prelude::*;

use crate::bytemap::ByteMap;
use crate::error::{DataError, KeyError, KeyErrorV, NodeKindV, TreeError, TreeErrorV};
use crate::error::{NodeError, NodeErrorV};
use crate::hasher::{hash_bytes, hash_of, hash_pair, HASH_LENGTH};
use crate::key::{spec_key_bit, Key};
use crate::lookup::{
    lemma_rec_after_assoc, lemma_rec_after_empty, lemma_rec_after_single, lemma_walk_step,
    spec_lookup_leaf, spec_rec_after, spec_resolve, spec_resolve_recorded, spec_walk, views_of,
};
use crate::node::{clone_bytes, ChildSelector, Node, NodeHash, NodeHashV, NodeV};
use crate::recorder::Recorder;
use crate::store::Store;
use crate::tree::{ladder_wf, null_nodes, spec_default_hash};

verus! {

/// The all-zero hash, which a caller may pass as the root of an empty tree.
pub open spec fn spec_zero_hash() -> Seq<u8> {
    Seq::new(HASH_LENGTH as nat, |i: int| 0u8)
}

/// One step of proof verification: fold the sibling at position `j` into the
/// running hash, on the side the key's bit at level `n - 1 - j` selects.
pub open spec fn spec_verify_from(
    key: Seq<u8>,
    acc: Seq<u8>,
    siblings: Seq<Seq<u8>>,
    j: int,
    n: int,
) -> Seq<u8>
    decreases n - j,
{
    if j < 0 || j >= n || j >= siblings.len() {
        acc
    } else {
        let next = if spec_key_bit(key, n - 1 - j) {
            hash_of(siblings[j] + acc)
        } else {
            hash_of(acc + siblings[j])
        };
        spec_verify_from(key, next, siblings, j + 1, n)
    }
}

/// The root hash recomputed from a value and a sibling list, for a tree of
/// `n` levels.
pub open spec fn spec_verify_hash(key: Seq<u8>, value: Seq<u8>, siblings: Seq<Seq<u8>>, n: int) -> Seq<
    u8,
> {
    spec_verify_from(key, hash_of(value), siblings, 0, n)
}

/// Builds a [`TreeDB`] over a store, a root hash and a depth in bytes.
pub struct TreeDBBuilder {
    db: Store,
    root: Vec<u8>,
    depth: usize,
    recorder: Option<Recorder>,
}

impl TreeDBBuilder {
    /// The store the builder was given.
    pub closed spec fn db_view(&self) -> Map<Seq<u8>, (Seq<u8>, usize)> {
        self.db@
    }

    /// The root hash the builder was given.
    pub closed spec fn root_bytes(&self) -> Seq<u8> {
        self.root@
    }

    /// The depth in bytes the builder was given.
    pub closed spec fn depth_bytes(&self) -> int {
        self.depth as int
    }

    /// The attached recorder's contents, if one is attached.
    pub closed spec fn recorder_view(&self) -> Option<Map<Seq<u8>, NodeV>> {
        match self.recorder {
            Some(ref r) => Some(r@),
            None => None,
        }
    }

    /// Starts building a tree. Fails exactly when the depth in bytes is too
    /// large for the tree's width in bits to be counted by a `usize`.
    pub fn new(db: Store, root: Vec<u8>, depth: usize) -> (r: Result<TreeDBBuilder, TreeError>)
        requires
            root@.len() == HASH_LENGTH,
        ensures
            match r {
                Ok(b) => {
                    &&& depth <= usize::MAX / 8
                    &&& b.db_view() == db@
                    &&& b.root_bytes() == root@
                    &&& b.depth_bytes() == depth
                    &&& b.recorder_view() is None
                },
                Err(e) => depth > usize::MAX / 8 && e@ == TreeErrorV::DepthTooLarge(
                    depth as int,
                    usize::MAX as int / 8,
                ),
            },
    {
        if depth > usize::MAX / 8 {
            return Err(TreeError::DepthTooLarge(depth, usize::MAX / 8));
        }
        Ok(TreeDBBuilder { db, root, depth, recorder: None })
    }

    /// Attaches a recorder, which will capture every node the tree resolves
    /// from its store.
    pub fn with_recorder(self, recorder: Recorder) -> (r: TreeDBBuilder)
        ensures
            r.db_view() == self.db_view(),
            r.root_bytes() == self.root_bytes(),
            r.depth_bytes() == self.depth_bytes(),
            r.recorder_view() == Some(recorder@),
    {
        TreeDBBuilder { recorder: Some(recorder), ..self }
    }

    /// Attaches a recorder if one is given.
    pub fn with_optional_recorder(self, recorder: Option<Recorder>) -> (r: TreeDBBuilder)
        ensures
            r.db_view() == self.db_view(),
            r.root_bytes() == self.root_bytes(),
            r.depth_bytes() == self.depth_bytes(),
            r.recorder_view() == match recorder {
                Some(ref rec) => Some(rec@),
                None => self.recorder_view(),
            },
    {
        match recorder {
            Some(rec) => TreeDBBuilder { recorder: Some(rec), ..self },
            None => self,
        }
    }

    /// Builds the tree. A root equal to the zero hash or to the empty tree's
    /// root resolves through the null-node ladder; any other root is read
    /// from the store.
    pub fn build(self) -> (r: TreeDB)
        requires
            self.depth_bytes() <= usize::MAX / 8,
            self.root_bytes().len() == HASH_LENGTH,
        ensures
            r.wf(),
            r.db_view() == self.db_view(),
            r.depth_bytes() == self.depth_bytes(),
            r.recorder_view() == self.recorder_view(),
            ladder_wf(r.ladder_view(), (8 * self.depth_bytes()) as nat),
            r.root_view() == (if self.root_bytes() == spec_zero_hash() || self.root_bytes()
                == spec_default_hash((8 * self.depth_bytes()) as nat) {
                NodeHashV::Default(spec_default_hash((8 * self.depth_bytes()) as nat))
            } else {
                NodeHashV::Database(self.root_bytes())
            }),
    {
        let (nulls, default_root) = null_nodes(8 * self.depth);
        let zero: Vec<u8> = vec![0u8; HASH_LENGTH];
        proof {
            assert(zero@ =~= spec_zero_hash());
        }
        let root = if crate::bytemap::bytes_eq(self.root.as_slice(), zero.as_slice())
            || crate::bytemap::bytes_eq(self.root.as_slice(), default_root.as_slice()) {
            NodeHash::Default(default_root)
        } else {
            NodeHash::Database(self.root)
        };
        TreeDB {
            db: self.db,
            root,
            null_nodes: nulls,
            recorder: self.recorder,
            depth: self.depth,
        }
    }
}

/// An immutable sparse Merkle tree over a backing store and a root hash,
/// read by byte-string keys.
pub struct TreeDB {
    db: Store,
    root: NodeHash,
    null_nodes: ByteMap<Node>,
    recorder: Option<Recorder>,
    depth: usize,
}

impl TreeDB {
    /// The backing store's contents.
    pub closed spec fn db_view(&self) -> Map<Seq<u8>, (Seq<u8>, usize)> {
        self.db@
    }

    /// The root reference the tree reads from.
    pub closed spec fn root_view(&self) -> NodeHashV {
        self.root@
    }

    /// The null-node ladder.
    pub closed spec fn ladder_view(&self) -> Map<Seq<u8>, NodeV> {
        self.null_nodes@
    }

    /// The attached recorder's contents, if one is attached.
    pub closed spec fn recorder_view(&self) -> Option<Map<Seq<u8>, NodeV>> {
        match self.recorder {
            Some(ref r) => Some(r@),
            None => None,
        }
    }

    /// The tree's depth in bytes.
    pub closed spec fn depth_bytes(&self) -> int {
        self.depth as int
    }

    /// Well-formedness: the ladder matches the tree's depth, the root hash
    /// is a digest, and the tree's width in bits is countable.
    pub closed spec fn wf(&self) -> bool {
        &&& ladder_wf(self.null_nodes@, (8 * self.depth as int) as nat)
        &&& 8 * self.depth as int <= usize::MAX
        &&& self.root@.spec_hash().len() == HASH_LENGTH
    }

    /// The backing store.
    pub fn db(&self) -> (r: &Store)
        ensures
            r@ == self.db_view(),
    {
        &self.db
    }

    /// The tree's root hash.
    pub fn root(&self) -> (r: &Vec<u8>)
        ensures
            r@ == self.root_view().spec_hash(),
    {
        self.root.hash()
    }

    /// The tree's depth in bits.
    pub fn depth(&self) -> (r: usize)
        requires
            self.wf(),
        ensures
            r == 8 * self.depth_bytes(),
    {
        8 * self.depth
    }

    /// The tree's depth in bytes.
    pub fn depth_in_bytes(&self) -> (r: usize)
        ensures
            r == self.depth_bytes(),
    {
        self.depth
    }

    /// Hands the attached recorder back, leaving the tree without one.
    pub fn take_recorder(&mut self) -> (r: Option<Recorder>)
        ensures
            final(self).db_view() == old(self).db_view(),
            final(self).root_view() == old(self).root_view(),
            final(self).ladder_view() == old(self).ladder_view(),
            final(self).depth_bytes() == old(self).depth_bytes(),
            old(self).wf() ==> final(self).wf(),
            final(self).recorder_view() is None,
            match r {
                Some(rec) => old(self).recorder_view() == Some(rec@),
                None => old(self).recorder_view() is None,
            },
    {
        let mut taken: Option<Recorder> = None;
        core::mem::swap(&mut taken, &mut self.recorder);
        taken
    }

    /// Resolves one node reference, recording a successful database
    /// resolution if a recorder is attached.
    fn lookup(&mut self, node_hash: &NodeHash) -> (r: Result<Node, TreeError>)
        requires
            old(self).wf(),
        ensures
            final(self).wf(),
            final(self).db_view() == old(self).db_view(),
            final(self).root_view() == old(self).root_view(),
            final(self).ladder_view() == old(self).ladder_view(),
            final(self).depth_bytes() == old(self).depth_bytes(),
            final(self).recorder_view() == spec_rec_after(
                old(self).recorder_view(),
                spec_resolve_recorded(
                    node_hash@,
                    old(self).db_view(),
                    None,
                    old(self).ladder_view(),
                ),
            ),
            ({
                let res = spec_resolve(
                    node_hash@,
                    old(self).db_view(),
                    None,
                    old(self).ladder_view(),
                );
                match r {
                    Ok(n) => res == Ok::<NodeV, TreeErrorV>(n@) && n@.wf(),
                    Err(e) => res == Err::<NodeV, TreeErrorV>(e@),
                }
            }),
    {
        match node_hash {
            NodeHash::InMemory(_) => {
                proof {
                    lemma_rec_after_empty(old(self).recorder_view());
                }
                Err(TreeError::DataError(DataError::InMemoryNotSupported))
            },
            NodeHash::Database(h) => {
                let data = match self.db.get(h.as_slice()) {
                    Some(d) => d,
                    None => {
                        proof {
                            lemma_rec_after_empty(old(self).recorder_view());
                        }
                        return Err(
                            TreeError::DataError(DataError::DatabaseDataNotFound(clone_bytes(h))),
                        );
                    },
                };
                let node = match Node::decode(data.as_slice()) {
                    Ok(n) => n,
                    Err(e) => {
                        proof {
                            lemma_rec_after_empty(old(self).recorder_view());
                        }
                        return Err(TreeError::NodeError(e));
                    },
                };
                match &mut self.recorder {
                    Some(rec) => {
                        let ghost m0 = rec@;
                        rec.record(&node);
                        proof {
                            lemma_rec_after_single(m0, node@.spec_hash(), node@);
                        }
                    },
                    None => {
                        proof {
                            lemma_rec_after_empty(old(self).recorder_view());
                        }
                    },
                }
                Ok(node)
            },
            NodeHash::Default(h) => {
                proof {
                    lemma_rec_after_empty(old(self).recorder_view());
                }
                match self.null_nodes.get(h.as_slice()) {
                    Some(n) => Ok(n.clone()),
                    None => Err(
                        TreeError::DataError(DataError::NullNodeDataNotFound(clone_bytes(h))),
                    ),
                }
            },
        }
    }

    /// Walks from the root to the leaf the key addresses. With `with_proof`
    /// the walk pushes each level's sibling hash and descends even through
    /// default subtrees; without it, a default child ends the walk early
    /// with no leaf.
    fn lookup_leaf_node(&mut self, key: &Key, with_proof: bool) -> (r: Result<
        (Option<Node>, Vec<Vec<u8>>),
        TreeError,
    >)
        requires
            old(self).wf(),
            key@.len() == old(self).depth_bytes(),
        ensures
            final(self).wf(),
            final(self).db_view() == old(self).db_view(),
            final(self).root_view() == old(self).root_view(),
            final(self).ladder_view() == old(self).ladder_view(),
            final(self).depth_bytes() == old(self).depth_bytes(),
            ({
                let o = spec_lookup_leaf(
                    key@,
                    old(self).root_view(),
                    old(self).db_view(),
                    None,
                    old(self).ladder_view(),
                    with_proof,
                );
                &&& final(self).recorder_view() == spec_rec_after(
                    old(self).recorder_view(),
                    o.recorded,
                )
                &&& match r {
                    Ok((leaf, sibs)) => {
                        &&& match leaf {
                            Some(l) => o.result == Ok::<Option<NodeV>, TreeErrorV>(Some(l@))
                                && l@.wf(),
                            None => o.result == Ok::<Option<NodeV>, TreeErrorV>(None),
                        }
                        &&& views_of(sibs@) == o.siblings
                    },
                    Err(e) => o.result == Err::<Option<NodeV>, TreeErrorV>(e@),
                }
            }),
    {
        let ghost db0 = self.db_view();
        let ghost ladder0 = self.ladder_view();
        let ghost rec0 = self.recorder_view();
        let ghost full = spec_lookup_leaf(
            key@,
            self.root_view(),
            db0,
            None,
            ladder0,
            with_proof,
        );
        let root_ref = self.root.clone();
        let mut current = match self.lookup(&root_ref) {
            Ok(n) => n,
            Err(e) => {
                return Err(e);
            },
        };
        proof {
            lemma_rec_after_assoc(
                rec0,
                spec_resolve_recorded(root_ref@, db0, None, ladder0),
                spec_walk(key@, 0, current@, db0, None, ladder0, with_proof).recorded,
            );
        }
        let n_bits = 8 * self.depth;
        let mut sibs: Vec<Vec<u8>> = Vec::new();
        let mut i: usize = 0;
        proof {
            assert(views_of(sibs@) + spec_walk(
                key@,
                0,
                current@,
                db0,
                None,
                ladder0,
                with_proof,
            ).siblings =~= spec_walk(key@, 0, current@, db0, None, ladder0, with_proof).siblings);
        }
        while i < n_bits
            invariant
                self.wf(),
                self.db_view() == db0,
                self.root_view() == old(self).root_view(),
                self.ladder_view() == ladder0,
                self.depth_bytes() == old(self).depth_bytes(),
                rec0 == old(self).recorder_view(),
                db0 == old(self).db_view(),
                ladder0 == old(self).ladder_view(),
                full == spec_lookup_leaf(
                    key@,
                    old(self).root_view(),
                    db0,
                    None,
                    ladder0,
                    with_proof,
                ),
                n_bits == 8 * old(self).depth_bytes(),
                key@.len() == old(self).depth_bytes(),
                i <= n_bits,
                current@.wf(),
                !with_proof ==> sibs@.len() == 0,
                ({
                    let w = spec_walk(key@, i as int, current@, db0, None, ladder0, with_proof);
                    &&& full.result == w.result
                    &&& full.siblings == views_of(sibs@) + w.siblings
                    &&& spec_rec_after(self.recorder_view(), w.recorded) == spec_rec_after(
                        rec0,
                        full.recorded,
                    )
                }),
            decreases n_bits - i,
        {
            let ghost w_i = spec_walk(key@, i as int, current@, db0, None, ladder0, with_proof);
            let ghost rec_i = self.recorder_view();
            let bit = match key.bit(i) {
                Ok(b) => b,
                Err(e) => {
                    proof {
                        assert(false);
                    }
                    return Err(TreeError::KeyError(e));
                },
            };
            let child_selector = ChildSelector::new(bit);
            let child = match current.child_hash(&child_selector) {
                Ok(h) => h.clone(),
                Err(e) => {
                    proof {
                        lemma_rec_after_empty(rec_i);
                    }
                    return Err(TreeError::NodeError(e));
                },
            };
            proof {
                lemma_walk_step(key@, i as int, current@, db0, None, ladder0, with_proof);
            }
            if child.is_default() && !with_proof {
                proof {
                    lemma_rec_after_empty(rec_i);
                    assert(views_of(sibs@) =~= full.siblings);
                }
                return Ok((None, sibs));
            }
            let ghost sibs_before = views_of(sibs@);
            if with_proof {
                let sib_sel = child_selector.sibling();
                let sib_ref = match current.child_hash(&sib_sel) {
                    Ok(h) => h,
                    Err(e) => {
                        proof {
                            assert(false);
                        }
                        return Err(TreeError::NodeError(e));
                    },
                };
                sibs.push(clone_bytes(sib_ref.hash()));
                proof {
                    assert(views_of(sibs@) =~= sibs_before.push(
                        current@.spec_child(
                            if child_selector == ChildSelector::Left {
                                ChildSelector::Right
                            } else {
                                ChildSelector::Left
                            },
                        ).spec_hash(),
                    ));
                }
            }
            let next = match self.lookup(&child) {
                Ok(n) => n,
                Err(e) => {
                    proof {
                        lemma_rec_after_empty(rec_i);
                    }
                    return Err(e);
                },
            };
            proof {
                let w_next = spec_walk(
                    key@,
                    i + 1,
                    next@,
                    db0,
                    None,
                    ladder0,
                    with_proof,
                );
                lemma_rec_after_assoc(
                    rec_i,
                    spec_resolve_recorded(child@, db0, None, ladder0),
                    w_next.recorded,
                );
                assert(views_of(sibs@) + w_next.siblings =~= sibs_before + w_i.siblings);
            }
            current = next;
            i = i + 1;
        }
        proof {
            let w_end = spec_walk(key@, i as int, current@, db0, None, ladder0, with_proof);
            lemma_rec_after_empty(self.recorder_view());
            assert(views_of(sibs@) + w_end.siblings =~= views_of(sibs@));
        }
        Ok((Some(current), sibs))
    }

    /// The value stored at the key: `None` when the key's path runs into an
    /// empty subtree. Fails exactly when the key has the wrong width, when a
    /// node on the path cannot be resolved or decoded, or when the walk ends
    /// on an inner node.
    pub fn value(&mut self, key: &[u8]) -> (r: Result<Option<Vec<u8>>, TreeError>)
        requires
            old(self).wf(),
        ensures
            final(self).wf(),
            final(self).db_view() == old(self).db_view(),
            final(self).root_view() == old(self).root_view(),
            final(self).ladder_view() == old(self).ladder_view(),
            final(self).depth_bytes() == old(self).depth_bytes(),
            ({
                let o = spec_lookup_leaf(
                    key@,
                    old(self).root_view(),
                    old(self).db_view(),
                    None,
                    old(self).ladder_view(),
                    false,
                );
                if key@.len() != old(self).depth_bytes() {
                    &&& final(self).recorder_view() == old(self).recorder_view()
                    &&& r matches Err(e) && e@ == TreeErrorV::KeyError(
                        KeyErrorV::IncorrectKeySize(old(self).depth_bytes(), key@.len() as int),
                    )
                } else {
                    &&& final(self).recorder_view() == spec_rec_after(
                        old(self).recorder_view(),
                        o.recorded,
                    )
                    &&& match r {
                        Ok(Some(v)) => o.result matches Ok(Some(l)) && l is Value && v@
                            == l->Value_value,
                        Ok(None) => o.result == Ok::<Option<NodeV>, TreeErrorV>(None),
                        Err(e) => match o.result {
                            Ok(Some(l)) => l is Inner && e@ == TreeErrorV::NodeError(
                                NodeErrorV::InvalidNodeType(NodeKindV::Inner, NodeKindV::Value),
                            ),
                            Ok(None) => false,
                            Err(e2) => e@ == e2,
                        },
                    }
                }
            }),
    {
        let k = match Key::new(key, self.depth) {
            Ok(k) => k,
            Err(e) => {
                return Err(TreeError::KeyError(e));
            },
        };
        match self.lookup_leaf_node(&k, false) {
            Ok((Some(node), _)) => match node.value() {
                Ok(v) => Ok(Some(clone_bytes(v))),
                Err(e) => Err(TreeError::NodeError(e)),
            },
            Ok((None, _)) => Ok(None),
            Err(e) => Err(e),
        }
    }

    /// The hash of the leaf node at the key: `None` when the key's path runs
    /// into an empty subtree.
    pub fn leaf(&mut self, key: &[u8]) -> (r: Result<Option<Vec<u8>>, TreeError>)
        requires
            old(self).wf(),
        ensures
            final(self).wf(),
            final(self).db_view() == old(self).db_view(),
            final(self).root_view() == old(self).root_view(),
            final(self).ladder_view() == old(self).ladder_view(),
            final(self).depth_bytes() == old(self).depth_bytes(),
            ({
                let o = spec_lookup_leaf(
                    key@,
                    old(self).root_view(),
                    old(self).db_view(),
                    None,
                    old(self).ladder_view(),
                    false,
                );
                if key@.len() != old(self).depth_bytes() {
                    &&& final(self).recorder_view() == old(self).recorder_view()
                    &&& r matches Err(e) && e@ == TreeErrorV::KeyError(
                        KeyErrorV::IncorrectKeySize(old(self).depth_bytes(), key@.len() as int),
                    )
                } else {
                    &&& final(self).recorder_view() == spec_rec_after(
                        old(self).recorder_view(),
                        o.recorded,
                    )
                    &&& match r {
                        Ok(Some(h)) => o.result matches Ok(Some(l)) && h@ == l.spec_hash(),
                        Ok(None) => o.result == Ok::<Option<NodeV>, TreeErrorV>(None),
                        Err(e) => o.result matches Err(e2) && e@ == e2,
                    }
                }
            }),
    {
        let k = match Key::new(key, self.depth) {
            Ok(k) => k,
            Err(e) => {
                return Err(TreeError::KeyError(e));
            },
        };
        match self.lookup_leaf_node(&k, false) {
            Ok((Some(node), _)) => Ok(Some(clone_bytes(node.hash()))),
            Ok((None, _)) => Ok(None),
            Err(e) => Err(e),
        }
    }

    /// An authenticated proof for the key: the value found there (`None`
    /// when the slot is empty), the tree's root hash, and the sibling hashes
    /// from the leaf's level up to the root's.
    pub fn merkle_proof(&mut self, key: &[u8]) -> (r: Result<
        (Option<Vec<u8>>, Vec<u8>, Vec<Vec<u8>>),
        TreeError,
    >)
        requires
            old(self).wf(),
        ensures
            final(self).wf(),
            final(self).db_view() == old(self).db_view(),
            final(self).root_view() == old(self).root_view(),
            final(self).ladder_view() == old(self).ladder_view(),
            final(self).depth_bytes() == old(self).depth_bytes(),
            ({
                let o = spec_lookup_leaf(
                    key@,
                    old(self).root_view(),
                    old(self).db_view(),
                    None,
                    old(self).ladder_view(),
                    true,
                );
                if key@.len() != old(self).depth_bytes() {
                    &&& final(self).recorder_view() == old(self).recorder_view()
                    &&& r matches Err(e) && e@ == TreeErrorV::KeyError(
                        KeyErrorV::IncorrectKeySize(old(self).depth_bytes(), key@.len() as int),
                    )
                } else {
                    &&& final(self).recorder_view() == spec_rec_after(
                        old(self).recorder_view(),
                        o.recorded,
                    )
                    &&& match r {
                        Ok((v, root_hash, sibs)) => {
                            &&& o.result matches Ok(Some(l)) && l is Value
                            &&& root_hash@ == old(self).root_view().spec_hash()
                            &&& views_of(sibs@) == o.siblings.reverse()
                            &&& sibs@.len() == 8 * old(self).depth_bytes()
                            &&& match v {
                                Some(vv) => o.result matches Ok(Some(l))
                                    && l->Value_value.len() > 0 && vv@ == l->Value_value,
                                None => o.result matches Ok(Some(l)) && l->Value_value.len()
                                    == 0,
                            }
                        },
                        Err(e) => match o.result {
                            Ok(Some(l)) => l is Inner && e@ == TreeErrorV::NodeError(
                                NodeErrorV::InvalidNodeType(NodeKindV::Inner, NodeKindV::Value),
                            ),
                            Ok(None) => false,
                            Err(e2) => e@ == e2,
                        },
                    }
                }
            }),
    {
        let ghost o = spec_lookup_leaf(
            key@,
            self.root_view(),
            self.db_view(),
            None,
            self.ladder_view(),
            true,
        );
        let k = match Key::new(key, self.depth) {
            Ok(k) => k,
            Err(e) => {
                return Err(TreeError::KeyError(e));
            },
        };
        let root_hash = clone_bytes(self.root.hash());
        match self.lookup_leaf_node(&k, true) {
            Ok((Some(node), sibs)) => match node.value() {
                Ok(v) => {
                    let value = if v.len() == 0 {
                        None
                    } else {
                        Some(clone_bytes(v))
                    };
                    proof {
                        if o.result is Ok {
                            crate::lookup::lemma_walk_proof_len_leaf(
                                key@,
                                old(self).root_view(),
                                old(self).db_view(),
                                None,
                                old(self).ladder_view(),
                            );
                        }
                    }
                    let reversed = reverse_list(sibs);
                    Ok((value, root_hash, reversed))
                },
                Err(e) => Err(TreeError::NodeError(e)),
            },
            Ok((None, _)) => {
                proof {
                    crate::lookup::lemma_walk_proof_len_leaf(
                        key@,
                        old(self).root_view(),
                        old(self).db_view(),
                        None,
                        old(self).ladder_view(),
                    );
                    assert(false);
                }
                Err(TreeError::DataError(DataError::InMemoryNotSupported))
            },
            Err(e) => Err(e),
        }
    }

    /// Recomputes the root from a value and a sibling list and compares it
    /// with the given root: the leaf's hash is the value's digest, and each
    /// sibling is folded in on the side the key's bit at that level selects.
    /// The check is stateless; non-inclusion is verified by passing the
    /// empty value.
    pub fn verify(key: &[u8], value: &[u8], siblings: &[Vec<u8>], root: &[u8], depth: usize) -> (r:
        Result<bool, TreeError>)
        ensures
            match r {
                Ok(b) => {
                    &&& depth <= usize::MAX / 8
                    &&& key@.len() == depth
                    &&& b == (spec_verify_hash(key@, value@, views_of(siblings@), 8 * depth as int)
                        == root@)
                },
                Err(e) => if depth > usize::MAX / 8 {
                    e@ == TreeErrorV::DepthTooLarge(depth as int, usize::MAX as int / 8)
                } else {
                    key@.len() != depth && e@ == TreeErrorV::KeyError(
                        KeyErrorV::IncorrectKeySize(depth as int, key@.len() as int),
                    )
                },
            },
    {
        if depth > usize::MAX / 8 {
            return Err(TreeError::DepthTooLarge(depth, usize::MAX / 8));
        }
        let k = match Key::new(key, depth) {
            Ok(k) => k,
            Err(e) => {
                return Err(TreeError::KeyError(e));
            },
        };
        let ghost pd = views_of(siblings@);
        let n_bits = 8 * depth;
        let mut acc = hash_bytes(value);
        let ghost acc0 = acc@;
        let mut j: usize = 0;
        while j < n_bits && j < siblings.len()
            invariant
                n_bits == 8 * depth,
                8 * depth <= usize::MAX,
                k@ == key@,
                k@.len() == depth,
                j <= n_bits,
                pd == views_of(siblings@),
                acc0 == hash_of(value@),
                spec_verify_from(key@, acc@, pd, j as int, n_bits as int) == spec_verify_from(
                    key@,
                    acc0,
                    pd,
                    0,
                    n_bits as int,
                ),
            decreases n_bits - j,
        {
            let bit = match k.bit(n_bits - 1 - j) {
                Ok(b) => b,
                Err(e) => {
                    proof {
                        assert(false);
                    }
                    return Err(TreeError::KeyError(e));
                },
            };
            let sibling = &siblings[j];
            proof {
                assert(pd[j as int] == sibling@);
            }
            acc = if bit {
                hash_pair(sibling.as_slice(), acc.as_slice())
            } else {
                hash_pair(acc.as_slice(), sibling.as_slice())
            };
            j = j + 1;
        }
        Ok(crate::bytemap::bytes_eq(acc.as_slice(), root))
    }
}

/// Reverses a list of byte vectors.
pub(crate) fn reverse_list(v: Vec<Vec<u8>>) -> (r: Vec<Vec<u8>>)
    ensures
        views_of(r@) == views_of(v@).reverse(),
        r@.len() == v@.len(),
{
    let mut out: Vec<Vec<u8>> = Vec::new();
    let mut j: usize = v.len();
    while j > 0
        invariant
            j <= v@.len(),
            out@.len() == v@.len() - j,
            forall|p: int| 0 <= p < out@.len() ==> out@[p]@ == v@[v@.len() - 1 - p]@,
        decreases j,
    {
        j = j - 1;
        out.push(clone_bytes(&v[j]));
    }
    proof {
        assert(views_of(out@) =~= views_of(v@).reverse());
    }
    out
}

} // verus!
