//! The immutable index adapter: a tree of up to eight key bytes addressed by
//! `u64` indices, encoded big-endian.

use vstd::prelude::*;

use crate::error::{KeyError, KeyErrorV, NodeKindV, TreeError, TreeErrorV};
use crate::error::NodeErrorV;
use crate::hasher::HASH_LENGTH;
use crate::key::{spec_index_byte, Key};
use crate::lookup::{spec_lookup_leaf, spec_rec_after, views_of};
use crate::node::NodeV;
use crate::recorder::Recorder;
use crate::store::Store;
use crate::treedb::{spec_verify_hash, TreeDB, TreeDBBuilder};

verus! {

/// The key that encodes an index big-endian into `depth` bytes.
pub open spec fn spec_index_key(index: u64, depth: int) -> Seq<u8> {
    Seq::new(depth as nat, |j: int| spec_index_byte(index, depth, j))
}

/// Whether an index is addressable by a tree of `depth` key bytes.
pub open spec fn spec_index_fits(index: u64, depth: int) -> bool {
    depth == 8 || index < (1u64 << ((8 * depth) as u64))
}

/// Builds an [`IndexTreeDB`] over a store, a root hash and a depth of at
/// most eight bytes.
pub struct IndexTreeDBBuilder {
    inner: TreeDBBuilder,
}

impl IndexTreeDBBuilder {
    /// The store the builder was given.
    pub closed spec fn db_view(&self) -> Map<Seq<u8>, (Seq<u8>, usize)> {
        self.inner.db_view()
    }

    /// The root hash the builder was given.
    pub closed spec fn root_bytes(&self) -> Seq<u8> {
        self.inner.root_bytes()
    }

    /// The depth in bytes the builder was given.
    pub closed spec fn depth_bytes(&self) -> int {
        self.inner.depth_bytes()
    }

    /// The attached recorder's contents, if one is attached.
    pub closed spec fn recorder_view(&self) -> Option<Map<Seq<u8>, NodeV>> {
        self.inner.recorder_view()
    }

    /// Starts building an indexed tree.
    pub fn new(db: Store, root: Vec<u8>, depth: usize) -> (r: Result<IndexTreeDBBuilder, TreeError>)
        requires
            root@.len() == HASH_LENGTH,
            depth <= 8,
        ensures
            match r {
                Ok(b) => {
                    &&& b.db_view() == db@
                    &&& b.root_bytes() == root@
                    &&& b.depth_bytes() == depth
                    &&& b.recorder_view() is None
                },
                Err(_) => false,
            },
    {
        match TreeDBBuilder::new(db, root, depth) {
            Ok(inner) => Ok(IndexTreeDBBuilder { inner }),
            Err(e) => {
                proof {
                    assert(false);
                }
                Err(e)
            },
        }
    }

    /// Attaches a recorder.
    pub fn with_recorder(self, recorder: Recorder) -> (r: IndexTreeDBBuilder)
        ensures
            r.db_view() == self.db_view(),
            r.root_bytes() == self.root_bytes(),
            r.depth_bytes() == self.depth_bytes(),
            r.recorder_view() == Some(recorder@),
    {
        IndexTreeDBBuilder { inner: self.inner.with_recorder(recorder) }
    }

    /// Attaches a recorder if one is given.
    pub fn with_optional_recorder(self, recorder: Option<Recorder>) -> (r: IndexTreeDBBuilder)
        ensures
            r.db_view() == self.db_view(),
            r.root_bytes() == self.root_bytes(),
            r.depth_bytes() == self.depth_bytes(),
            r.recorder_view() == match recorder {
                Some(ref rec) => Some(rec@),
                None => self.recorder_view(),
            },
    {
        IndexTreeDBBuilder { inner: self.inner.with_optional_recorder(recorder) }
    }

    /// Builds the indexed tree.
    pub fn build(self) -> (r: IndexTreeDB)
        requires
            self.depth_bytes() <= 8,
            self.root_bytes().len() == HASH_LENGTH,
        ensures
            r.wf(),
            r.db_view() == self.db_view(),
            r.depth_bytes() == self.depth_bytes(),
            r.recorder_view() == self.recorder_view(),
    {
        IndexTreeDB { keyed_db: self.inner.build() }
    }
}

/// An immutable sparse Merkle tree read by `u64` indices; wraps a
/// [`TreeDB`] and encodes each index as a big-endian key.
pub struct IndexTreeDB {
    keyed_db: TreeDB,
}

impl IndexTreeDB {
    /// The backing store's contents.
    pub closed spec fn db_view(&self) -> Map<Seq<u8>, (Seq<u8>, usize)> {
        self.keyed_db.db_view()
    }

    /// The root reference the tree reads from.
    pub closed spec fn root_view(&self) -> crate::node::NodeHashV {
        self.keyed_db.root_view()
    }

    /// The null-node ladder.
    pub closed spec fn ladder_view(&self) -> Map<Seq<u8>, NodeV> {
        self.keyed_db.ladder_view()
    }

    /// The attached recorder's contents, if one is attached.
    pub closed spec fn recorder_view(&self) -> Option<Map<Seq<u8>, NodeV>> {
        self.keyed_db.recorder_view()
    }

    /// The tree's depth in bytes.
    pub closed spec fn depth_bytes(&self) -> int {
        self.keyed_db.depth_bytes()
    }

    /// Well-formedness: the wrapped tree is well formed and no wider than a
    /// `u64` index can address.
    pub closed spec fn wf(&self) -> bool {
        self.keyed_db.wf() && self.depth_bytes() <= 8
    }

    /// The tree's root hash.
    pub fn root(&self) -> (r: &Vec<u8>)
        ensures
            r@ == self.root_view().spec_hash(),
    {
        self.keyed_db.root()
    }

    /// The tree's depth in bits.
    pub fn depth(&self) -> (r: usize)
        requires
            self.wf(),
        ensures
            r == 8 * self.depth_bytes(),
    {
        self.keyed_db.depth()
    }

    /// The value stored at the index: `None` when the index's path runs
    /// into an empty subtree. Fails exactly when the index is beyond the
    /// tree's capacity, or as the walk itself fails.
    pub fn value(&mut self, index: &u64) -> (r: Result<Option<Vec<u8>>, TreeError>)
        requires
            old(self).wf(),
        ensures
            final(self).wf(),
            final(self).db_view() == old(self).db_view(),
            final(self).root_view() == old(self).root_view(),
            final(self).ladder_view() == old(self).ladder_view(),
            final(self).depth_bytes() == old(self).depth_bytes(),
            ({
                let o = spec_lookup_leaf(
                    spec_index_key(*index, old(self).depth_bytes()),
                    old(self).root_view(),
                    old(self).db_view(),
                    None,
                    old(self).ladder_view(),
                    false,
                );
                if !spec_index_fits(*index, old(self).depth_bytes()) {
                    &&& final(self).recorder_view() == old(self).recorder_view()
                    &&& r matches Err(e) && e@ == TreeErrorV::KeyError(
                        KeyErrorV::LeafIndexOutOfBounds(
                            *index,
                            1u64 << ((8 * old(self).depth_bytes()) as u64),
                        ),
                    )
                } else {
                    &&& final(self).recorder_view() == spec_rec_after(
                        old(self).recorder_view(),
                        o.recorded,
                    )
                    &&& match r {
                        Ok(Some(v)) => o.result matches Ok(Some(l)) && l is Value && v@
                            == l->Value_value,
                        Ok(None) => o.result == Ok::<Option<NodeV>, TreeErrorV>(None),
                        Err(e) => match o.result {
                            Ok(Some(l)) => l is Inner && e@ == TreeErrorV::NodeError(
                                NodeErrorV::InvalidNodeType(NodeKindV::Inner, NodeKindV::Value),
                            ),
                            Ok(None) => false,
                            Err(e2) => e@ == e2,
                        },
                    }
                }
            }),
    {
        let key = match Key::from_index(*index, self.keyed_db.depth_in_bytes()) {
            Ok(k) => k,
            Err(e) => {
                return Err(TreeError::KeyError(e));
            },
        };
        proof {
            assert(key@ =~= spec_index_key(*index, old(self).depth_bytes()));
        }
        self.keyed_db.value(key.as_slice())
    }

    /// The hash of the leaf node at the index.
    pub fn leaf(&mut self, index: &u64) -> (r: Result<Option<Vec<u8>>, TreeError>)
        requires
            old(self).wf(),
        ensures
            final(self).wf(),
            final(self).db_view() == old(self).db_view(),
            final(self).root_view() == old(self).root_view(),
            final(self).ladder_view() == old(self).ladder_view(),
            final(self).depth_bytes() == old(self).depth_bytes(),
            ({
                let o = spec_lookup_leaf(
                    spec_index_key(*index, old(self).depth_bytes()),
                    old(self).root_view(),
                    old(self).db_view(),
                    None,
                    old(self).ladder_view(),
                    false,
                );
                if !spec_index_fits(*index, old(self).depth_bytes()) {
                    &&& final(self).recorder_view() == old(self).recorder_view()
                    &&& r matches Err(e) && e@ == TreeErrorV::KeyError(
                        KeyErrorV::LeafIndexOutOfBounds(
                            *index,
                            1u64 << ((8 * old(self).depth_bytes()) as u64),
                        ),
                    )
                } else {
                    &&& final(self).recorder_view() == spec_rec_after(
                        old(self).recorder_view(),
                        o.recorded,
                    )
                    &&& match r {
                        Ok(Some(h)) => o.result matches Ok(Some(l)) && h@ == l.spec_hash(),
                        Ok(None) => o.result == Ok::<Option<NodeV>, TreeErrorV>(None),
                        Err(e) => o.result matches Err(e2) && e@ == e2,
                    }
                }
            }),
    {
        let key = match Key::from_index(*index, self.keyed_db.depth_in_bytes()) {
            Ok(k) => k,
            Err(e) => {
                return Err(TreeError::KeyError(e));
            },
        };
        proof {
            assert(key@ =~= spec_index_key(*index, old(self).depth_bytes()));
        }
        self.keyed_db.leaf(key.as_slice())
    }

    /// An authenticated proof for the index; see
    /// [`TreeDB::merkle_proof`].
    pub fn merkle_proof(&mut self, index: &u64) -> (r: Result<
        (Option<Vec<u8>>, Vec<u8>, Vec<Vec<u8>>),
        TreeError,
    >)
        requires
            old(self).wf(),
        ensures
            final(self).wf(),
            final(self).db_view() == old(self).db_view(),
            final(self).root_view() == old(self).root_view(),
            final(self).ladder_view() == old(self).ladder_view(),
            final(self).depth_bytes() == old(self).depth_bytes(),
            ({
                let o = spec_lookup_leaf(
                    spec_index_key(*index, old(self).depth_bytes()),
                    old(self).root_view(),
                    old(self).db_view(),
                    None,
                    old(self).ladder_view(),
                    true,
                );
                if !spec_index_fits(*index, old(self).depth_bytes()) {
                    &&& final(self).recorder_view() == old(self).recorder_view()
                    &&& r matches Err(e) && e@ == TreeErrorV::KeyError(
                        KeyErrorV::LeafIndexOutOfBounds(
                            *index,
                            1u64 << ((8 * old(self).depth_bytes()) as u64),
                        ),
                    )
                } else {
                    &&& final(self).recorder_view() == spec_rec_after(
                        old(self).recorder_view(),
                        o.recorded,
                    )
                    &&& match r {
                        Ok((v, root_hash, sibs)) => {
                            &&& o.result matches Ok(Some(l)) && l is Value
                            &&& root_hash@ == old(self).root_view().spec_hash()
                            &&& views_of(sibs@) == o.siblings.reverse()
                            &&& sibs@.len() == 8 * old(self).depth_bytes()
                            &&& match v {
                                Some(vv) => o.result matches Ok(Some(l))
                                    && l->Value_value.len() > 0 && vv@ == l->Value_value,
                                None => o.result matches Ok(Some(l)) && l->Value_value.len()
                                    == 0,
                            }
                        },
                        Err(e) => match o.result {
                            Ok(Some(l)) => l is Inner && e@ == TreeErrorV::NodeError(
                                NodeErrorV::InvalidNodeType(NodeKindV::Inner, NodeKindV::Value),
                            ),
                            Ok(None) => false,
                            Err(e2) => e@ == e2,
                        },
                    }
                }
            }),
    {
        let key = match Key::from_index(*index, self.keyed_db.depth_in_bytes()) {
            Ok(k) => k,
            Err(e) => {
                return Err(TreeError::KeyError(e));
            },
        };
        proof {
            assert(key@ =~= spec_index_key(*index, old(self).depth_bytes()));
        }
        self.keyed_db.merkle_proof(key.as_slice())
    }

    /// Verifies a proof for an index; the check of
    /// [`TreeDB::verify`] over the index's big-endian key.
    pub fn verify(index: &u64, value: &[u8], siblings: &[Vec<u8>], root: &[u8], depth: usize) -> (r:
        Result<bool, TreeError>)
        requires
            depth <= 8,
        ensures
            match r {
                Ok(b) => spec_index_fits(*index, depth as int) && b == (spec_verify_hash(
                    spec_index_key(*index, depth as int),
                    value@,
                    views_of(siblings@),
                    8 * depth as int,
                ) == root@),
                Err(e) => !spec_index_fits(*index, depth as int) && e@ == TreeErrorV::KeyError(
                    KeyErrorV::LeafIndexOutOfBounds(*index, 1u64 << ((8 * depth) as u64)),
                ),
            },
    {
        let key = match Key::from_index(*index, depth) {
            Ok(k) => k,
            Err(e) => {
                return Err(TreeError::KeyError(e));
            },
        };
        proof {
            assert(key@ =~= spec_index_key(*index, depth as int));
        }
        match TreeDB::verify(key.as_slice(), value, siblings, root, depth) {
            Ok(b) => Ok(b),
            Err(e) => {
                proof {
                    assert(false);
                }
                Err(e)
            },
        }
    }
}

} // verus!
