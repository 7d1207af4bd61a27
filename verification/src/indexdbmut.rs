//! The mutable index adapter: a mutable tree of up to eight key bytes
//! addressed by `u64` indices, encoded big-endian.

use vstd::prelude::*;

use crate::error::{KeyError, KeyErrorV, NodeKindV, TreeError, TreeErrorV};
use crate::error::NodeErrorV;
use crate::hasher::HASH_LENGTH;
use crate::indexdb::{spec_index_fits, spec_index_key};
use crate::key::Key;
use crate::lookup::{spec_lookup_leaf, spec_rec_after, views_of};
use crate::node::{NodeHashV, NodeV};
use crate::recorder::Recorder;
use crate::store::Store;
use crate::treedb::spec_verify_hash;
use crate::treedbmut::{
    opt_bytes_view, spec_committed_db, spec_insert, MutState, TreeDBMut, TreeDBMutBuilder,
};

verus! {

/// Builds an [`IndexTreeDBMut`] over a store, a root hash and a depth of at
/// most eight bytes.
pub struct IndexTreeDBMutBuilder {
    inner: TreeDBMutBuilder,
}

impl IndexTreeDBMutBuilder {
    /// The store the builder was given.
    pub closed spec fn db_view(&self) -> Map<Seq<u8>, (Seq<u8>, usize)> {
        self.inner.db_view()
    }

    /// The root hash the builder was given.
    pub closed spec fn root_bytes(&self) -> Seq<u8> {
        self.inner.root_bytes()
    }

    /// The depth in bytes the builder was given.
    pub closed spec fn depth_bytes(&self) -> int {
        self.inner.depth_bytes()
    }

    /// The attached recorder's contents, if one is attached.
    pub closed spec fn recorder_view(&self) -> Option<Map<Seq<u8>, NodeV>> {
        self.inner.recorder_view()
    }

    /// Starts building a mutable indexed tree.
    pub fn new(db: Store, root: Vec<u8>, depth: usize) -> (r: Result<
        IndexTreeDBMutBuilder,
        TreeError,
    >)
        requires
            root@.len() == HASH_LENGTH,
            depth <= 8,
        ensures
            match r {
                Ok(b) => {
                    &&& b.db_view() == db@
                    &&& b.root_bytes() == root@
                    &&& b.depth_bytes() == depth
                    &&& b.recorder_view() is None
                },
                Err(_) => false,
            },
    {
        match TreeDBMutBuilder::new(db, root, depth) {
            Ok(inner) => Ok(IndexTreeDBMutBuilder { inner }),
            Err(e) => {
                proof {
                    assert(false);
                }
                Err(e)
            },
        }
    }

    /// Attaches a recorder.
    pub fn with_recorder(self, recorder: Recorder) -> (r: IndexTreeDBMutBuilder)
        ensures
            r.db_view() == self.db_view(),
            r.root_bytes() == self.root_bytes(),
            r.depth_bytes() == self.depth_bytes(),
            r.recorder_view() == Some(recorder@),
    {
        IndexTreeDBMutBuilder { inner: self.inner.with_recorder(recorder) }
    }

    /// Attaches a recorder if one is given.
    pub fn with_optional_recorder(self, recorder: Option<Recorder>) -> (r: IndexTreeDBMutBuilder)
        ensures
            r.db_view() == self.db_view(),
            r.root_bytes() == self.root_bytes(),
            r.depth_bytes() == self.depth_bytes(),
            r.recorder_view() == match recorder {
                Some(ref rec) => Some(rec@),
                None => self.recorder_view(),
            },
    {
        IndexTreeDBMutBuilder { inner: self.inner.with_optional_recorder(recorder) }
    }

    /// Builds the mutable indexed tree.
    pub fn build(self) -> (r: IndexTreeDBMut)
        requires
            self.depth_bytes() <= 8,
            self.root_bytes().len() == HASH_LENGTH,
        ensures
            r.wf(),
            r.db_view() == self.db_view(),
            r.depth_bytes() == self.depth_bytes(),
            r.recorder_view() == self.recorder_view(),
            r.root_bytes() == self.root_bytes(),
            r.overlay_view() == Map::<Seq<u8>, (NodeV, usize)>::empty(),
            r.death_view() == Map::<Seq<u8>, usize>::empty(),
    {
        IndexTreeDBMut { keyed_db: self.inner.build() }
    }
}

/// A mutable sparse Merkle tree written by `u64` indices; wraps a
/// [`TreeDBMut`] and encodes each index as a big-endian key.
pub struct IndexTreeDBMut {
    keyed_db: TreeDBMut,
}

impl IndexTreeDBMut {
    /// The backing store's contents.
    pub closed spec fn db_view(&self) -> Map<Seq<u8>, (Seq<u8>, usize)> {
        self.keyed_db.db_view()
    }

    /// The root hash cell, as last published by `commit`.
    pub closed spec fn root_bytes(&self) -> Seq<u8> {
        self.keyed_db.root_bytes()
    }

    /// The reference to the current root.
    pub closed spec fn root_view(&self) -> NodeHashV {
        self.keyed_db.root_view()
    }

    /// The overlay of pending nodes.
    pub closed spec fn overlay_view(&self) -> Map<Seq<u8>, (NodeV, usize)> {
        self.keyed_db.overlay_view()
    }

    /// The pending deletions against the store.
    pub closed spec fn death_view(&self) -> Map<Seq<u8>, usize> {
        self.keyed_db.death_view()
    }

    /// The null-node ladder.
    pub closed spec fn ladder_view(&self) -> Map<Seq<u8>, NodeV> {
        self.keyed_db.ladder_view()
    }

    /// The attached recorder's contents, if one is attached.
    pub closed spec fn recorder_view(&self) -> Option<Map<Seq<u8>, NodeV>> {
        self.keyed_db.recorder_view()
    }

    /// The tree's depth in bytes.
    pub closed spec fn depth_bytes(&self) -> int {
        self.keyed_db.depth_bytes()
    }

    /// The session state a write changes, bundled.
    pub open spec fn st(&self) -> MutState {
        MutState {
            overlay: self.overlay_view(),
            death: self.death_view(),
            rec: self.recorder_view(),
        }
    }

    /// Well-formedness: the wrapped tree is well formed and no wider than a
    /// `u64` index can address.
    pub closed spec fn wf(&self) -> bool {
        self.keyed_db.wf() && self.depth_bytes() <= 8
    }

    /// The tree's depth in bits.
    pub fn depth(&self) -> (r: usize)
        requires
            self.wf(),
        ensures
            r == 8 * self.depth_bytes(),
    {
        self.keyed_db.depth()
    }

    /// Commits pending writes; see [`TreeDBMut::commit`].
    pub fn commit(&mut self)
        requires
            old(self).wf(),
        ensures
            final(self).wf(),
            final(self).ladder_view() == old(self).ladder_view(),
            final(self).depth_bytes() == old(self).depth_bytes(),
            final(self).recorder_view() == old(self).recorder_view(),
            final(self).overlay_view() == Map::<Seq<u8>, (NodeV, usize)>::empty(),
            final(self).death_view() == Map::<Seq<u8>, usize>::empty(),
            final(self).root_bytes() == old(self).root_view().spec_hash(),
            final(self).root_view() == NodeHashV::Database(old(self).root_view().spec_hash()),
            spec_committed_db(
                old(self).db_view(),
                old(self).overlay_view(),
                old(self).death_view(),
                final(self).db_view(),
            ),
    {
        self.keyed_db.commit()
    }

    /// Commits any pending writes and returns the published root hash.
    pub fn root(&mut self) -> (r: &Vec<u8>)
        requires
            old(self).wf(),
        ensures
            final(self).wf(),
            final(self).ladder_view() == old(self).ladder_view(),
            final(self).depth_bytes() == old(self).depth_bytes(),
            final(self).recorder_view() == old(self).recorder_view(),
            final(self).overlay_view() == Map::<Seq<u8>, (NodeV, usize)>::empty(),
            final(self).death_view() == Map::<Seq<u8>, usize>::empty(),
            final(self).root_bytes() == old(self).root_view().spec_hash(),
            final(self).root_view() == NodeHashV::Database(old(self).root_view().spec_hash()),
            spec_committed_db(
                old(self).db_view(),
                old(self).overlay_view(),
                old(self).death_view(),
                final(self).db_view(),
            ),
            r@ == old(self).root_view().spec_hash(),
    {
        self.keyed_db.root()
    }

    /// Takes the tree apart, handing back the store, the last published
    /// root, and the recorder if one was attached.
    pub fn into_parts(self) -> (r: (Store, Vec<u8>, Option<Recorder>))
        ensures
            r.0@ == self.db_view(),
            r.1@ == self.root_bytes(),
            match r.2 {
                Some(rec) => self.recorder_view() == Some(rec@),
                None => self.recorder_view() is None,
            },
    {
        self.keyed_db.into_parts()
    }

    /// The value stored at the index, reading through the overlay and the
    /// store.
    pub fn value(&mut self, index: &u64) -> (r: Result<Option<Vec<u8>>, TreeError>)
        requires
            old(self).wf(),
        ensures
            final(self).wf(),
            final(self).db_view() == old(self).db_view(),
            final(self).root_bytes() == old(self).root_bytes(),
            final(self).root_view() == old(self).root_view(),
            final(self).overlay_view() == old(self).overlay_view(),
            final(self).death_view() == old(self).death_view(),
            final(self).ladder_view() == old(self).ladder_view(),
            final(self).depth_bytes() == old(self).depth_bytes(),
            ({
                let o = spec_lookup_leaf(
                    spec_index_key(*index, old(self).depth_bytes()),
                    old(self).root_view(),
                    old(self).db_view(),
                    Some(old(self).overlay_view()),
                    old(self).ladder_view(),
                    false,
                );
                if !spec_index_fits(*index, old(self).depth_bytes()) {
                    &&& final(self).recorder_view() == old(self).recorder_view()
                    &&& r matches Err(e) && e@ == TreeErrorV::KeyError(
                        KeyErrorV::LeafIndexOutOfBounds(
                            *index,
                            1u64 << ((8 * old(self).depth_bytes()) as u64),
                        ),
                    )
                } else {
                    &&& final(self).recorder_view() == spec_rec_after(
                        old(self).recorder_view(),
                        o.recorded,
                    )
                    &&& match r {
                        Ok(Some(v)) => o.result matches Ok(Some(l)) && l is Value && v@
                            == l->Value_value,
                        Ok(None) => o.result == Ok::<Option<NodeV>, TreeErrorV>(None),
                        Err(e) => match o.result {
                            Ok(Some(l)) => l is Inner && e@ == TreeErrorV::NodeError(
                                NodeErrorV::InvalidNodeType(NodeKindV::Inner, NodeKindV::Value),
                            ),
                            Ok(None) => false,
                            Err(e2) => e@ == e2,
                        },
                    }
                }
            }),
    {
        let key = match Key::from_index(*index, self.keyed_db.depth_in_bytes()) {
            Ok(k) => k,
            Err(e) => {
                return Err(TreeError::KeyError(e));
            },
        };
        proof {
            assert(key@ =~= spec_index_key(*index, old(self).depth_bytes()));
        }
        self.keyed_db.value(key.as_slice())
    }

    /// The hash of the leaf node at the index.
    pub fn leaf(&mut self, index: &u64) -> (r: Result<Option<Vec<u8>>, TreeError>)
        requires
            old(self).wf(),
        ensures
            final(self).wf(),
            final(self).db_view() == old(self).db_view(),
            final(self).root_bytes() == old(self).root_bytes(),
            final(self).root_view() == old(self).root_view(),
            final(self).overlay_view() == old(self).overlay_view(),
            final(self).death_view() == old(self).death_view(),
            final(self).ladder_view() == old(self).ladder_view(),
            final(self).depth_bytes() == old(self).depth_bytes(),
            ({
                let o = spec_lookup_leaf(
                    spec_index_key(*index, old(self).depth_bytes()),
                    old(self).root_view(),
                    old(self).db_view(),
                    Some(old(self).overlay_view()),
                    old(self).ladder_view(),
                    false,
                );
                if !spec_index_fits(*index, old(self).depth_bytes()) {
                    &&& final(self).recorder_view() == old(self).recorder_view()
                    &&& r matches Err(e) && e@ == TreeErrorV::KeyError(
                        KeyErrorV::LeafIndexOutOfBounds(
                            *index,
                            1u64 << ((8 * old(self).depth_bytes()) as u64),
                        ),
                    )
                } else {
                    &&& final(self).recorder_view() == spec_rec_after(
                        old(self).recorder_view(),
                        o.recorded,
                    )
                    &&& match r {
                        Ok(Some(h)) => o.result matches Ok(Some(l)) && h@ == l.spec_hash(),
                        Ok(None) => o.result == Ok::<Option<NodeV>, TreeErrorV>(None),
                        Err(e) => o.result matches Err(e2) && e@ == e2,
                    }
                }
            }),
    {
        let key = match Key::from_index(*index, self.keyed_db.depth_in_bytes()) {
            Ok(k) => k,
            Err(e) => {
                return Err(TreeError::KeyError(e));
            },
        };
        proof {
            assert(key@ =~= spec_index_key(*index, old(self).depth_bytes()));
        }
        self.keyed_db.leaf(key.as_slice())
    }

    /// An authenticated proof for the index against the tree's current
    /// root; see [`TreeDBMut::merkle_proof`].
    pub fn merkle_proof(&mut self, index: &u64) -> (r: Result<
        (Option<Vec<u8>>, Vec<u8>, Vec<Vec<u8>>),
        TreeError,
    >)
        requires
            old(self).wf(),
        ensures
            final(self).wf(),
            final(self).db_view() == old(self).db_view(),
            final(self).root_bytes() == old(self).root_bytes(),
            final(self).root_view() == old(self).root_view(),
            final(self).overlay_view() == old(self).overlay_view(),
            final(self).death_view() == old(self).death_view(),
            final(self).ladder_view() == old(self).ladder_view(),
            final(self).depth_bytes() == old(self).depth_bytes(),
            ({
                let o = spec_lookup_leaf(
                    spec_index_key(*index, old(self).depth_bytes()),
                    old(self).root_view(),
                    old(self).db_view(),
                    Some(old(self).overlay_view()),
                    old(self).ladder_view(),
                    true,
                );
                if !spec_index_fits(*index, old(self).depth_bytes()) {
                    &&& final(self).recorder_view() == old(self).recorder_view()
                    &&& r matches Err(e) && e@ == TreeErrorV::KeyError(
                        KeyErrorV::LeafIndexOutOfBounds(
                            *index,
                            1u64 << ((8 * old(self).depth_bytes()) as u64),
                        ),
                    )
                } else {
                    &&& final(self).recorder_view() == spec_rec_after(
                        old(self).recorder_view(),
                        o.recorded,
                    )
                    &&& match r {
                        Ok((v, root_hash, sibs)) => {
                            &&& o.result matches Ok(Some(l)) && l is Value
                            &&& root_hash@ == old(self).root_view().spec_hash()
                            &&& views_of(sibs@) == o.siblings.reverse()
                            &&& sibs@.len() == 8 * old(self).depth_bytes()
                            &&& match v {
                                Some(vv) => o.result matches Ok(Some(l))
                                    && l->Value_value.len() > 0 && vv@ == l->Value_value,
                                None => o.result matches Ok(Some(l)) && l->Value_value.len()
                                    == 0,
                            }
                        },
                        Err(e) => match o.result {
                            Ok(Some(l)) => l is Inner && e@ == TreeErrorV::NodeError(
                                NodeErrorV::InvalidNodeType(NodeKindV::Inner, NodeKindV::Value),
                            ),
                            Ok(None) => false,
                            Err(e2) => e@ == e2,
                        },
                    }
                }
            }),
    {
        let key = match Key::from_index(*index, self.keyed_db.depth_in_bytes()) {
            Ok(k) => k,
            Err(e) => {
                return Err(TreeError::KeyError(e));
            },
        };
        proof {
            assert(key@ =~= spec_index_key(*index, old(self).depth_bytes()));
        }
        self.keyed_db.merkle_proof(key.as_slice())
    }

    /// Inserts a value at the index and hands back the value the leaf held
    /// before; see [`TreeDBMut::insert`].
    pub fn insert(&mut self, index: &u64, value: Vec<u8>) -> (r: Result<
        Option<Vec<u8>>,
        TreeError,
    >)
        requires
            old(self).wf(),
        ensures
            final(self).wf(),
            final(self).db_view() == old(self).db_view(),
            final(self).root_bytes() == old(self).root_bytes(),
            final(self).ladder_view() == old(self).ladder_view(),
            final(self).depth_bytes() == old(self).depth_bytes(),
            ({
                if !spec_index_fits(*index, old(self).depth_bytes()) {
                    &&& final(self).st() == old(self).st()
                    &&& final(self).root_view() == old(self).root_view()
                    &&& r matches Err(e) && e@ == TreeErrorV::KeyError(
                        KeyErrorV::LeafIndexOutOfBounds(
                            *index,
                            1u64 << ((8 * old(self).depth_bytes()) as u64),
                        ),
                    )
                } else {
                    let (res, st2, root2) = spec_insert(
                        old(self).db_view(),
                        old(self).ladder_view(),
                        old(self).st(),
                        old(self).root_view(),
                        spec_index_key(*index, old(self).depth_bytes()),
                        value@,
                    );
                    &&& final(self).st() == st2
                    &&& final(self).root_view() == root2
                    &&& match r {
                        Ok(v) => res == Ok::<Option<Seq<u8>>, TreeErrorV>(opt_bytes_view(v)),
                        Err(e) => res == Err::<Option<Seq<u8>>, TreeErrorV>(e@),
                    }
                }
            }),
    {
        let key = match Key::from_index(*index, self.keyed_db.depth_in_bytes()) {
            Ok(k) => k,
            Err(e) => {
                return Err(TreeError::KeyError(e));
            },
        };
        proof {
            assert(key@ =~= spec_index_key(*index, old(self).depth_bytes()));
        }
        self.keyed_db.insert(key.as_slice(), value)
    }

    /// Removes the value at the index; see [`TreeDBMut::remove`].
    pub fn remove(&mut self, index: &u64) -> (r: Result<Option<Vec<u8>>, TreeError>)
        requires
            old(self).wf(),
        ensures
            final(self).wf(),
            final(self).db_view() == old(self).db_view(),
            final(self).root_bytes() == old(self).root_bytes(),
            final(self).ladder_view() == old(self).ladder_view(),
            final(self).depth_bytes() == old(self).depth_bytes(),
            ({
                if !spec_index_fits(*index, old(self).depth_bytes()) {
                    &&& final(self).st() == old(self).st()
                    &&& final(self).root_view() == old(self).root_view()
                    &&& r matches Err(e) && e@ == TreeErrorV::KeyError(
                        KeyErrorV::LeafIndexOutOfBounds(
                            *index,
                            1u64 << ((8 * old(self).depth_bytes()) as u64),
                        ),
                    )
                } else {
                    let (res, st2, root2) = spec_insert(
                        old(self).db_view(),
                        old(self).ladder_view(),
                        old(self).st(),
                        old(self).root_view(),
                        spec_index_key(*index, old(self).depth_bytes()),
                        Seq::empty(),
                    );
                    &&& final(self).st() == st2
                    &&& final(self).root_view() == root2
                    &&& match r {
                        Ok(v) => res == Ok::<Option<Seq<u8>>, TreeErrorV>(opt_bytes_view(v)),
                        Err(e) => res == Err::<Option<Seq<u8>>, TreeErrorV>(e@),
                    }
                }
            }),
    {
        let key = match Key::from_index(*index, self.keyed_db.depth_in_bytes()) {
            Ok(k) => k,
            Err(e) => {
                return Err(TreeError::KeyError(e));
            },
        };
        proof {
            assert(key@ =~= spec_index_key(*index, old(self).depth_bytes()));
        }
        self.keyed_db.remove(key.as_slice())
    }

    /// Verifies a proof for an index; the check of
    /// [`crate::treedb::TreeDB::verify`] over the index's big-endian key.
    pub fn verify(index: &u64, value: &[u8], siblings: &[Vec<u8>], root: &[u8], depth: usize) -> (r:
        Result<bool, TreeError>)
        requires
            depth <= 8,
        ensures
            match r {
                Ok(b) => spec_index_fits(*index, depth as int) && b == (spec_verify_hash(
                    spec_index_key(*index, depth as int),
                    value@,
                    views_of(siblings@),
                    8 * depth as int,
                ) == root@),
                Err(e) => !spec_index_fits(*index, depth as int) && e@ == TreeErrorV::KeyError(
                    KeyErrorV::LeafIndexOutOfBounds(*index, 1u64 << ((8 * depth) as u64)),
                ),
            },
    {
        crate::indexdb::IndexTreeDB::verify(index, value, siblings, root, depth)
    }
}

} // verus!
