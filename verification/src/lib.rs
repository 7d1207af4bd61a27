//! A persistent sparse Merkle tree library.
//!
//! A fixed-depth binary Merkle tree is used as a key-value store whose whole
//! state is summarised by a single root hash. Reads descend from the root by
//! the bits of the key; writes go to an in-memory overlay and are reconciled
//! against the backing store by `commit`, using reference counts so that
//! subtrees shared with other trees neither vanish nor duplicate. The tree
//! supports authenticated inclusion and non-inclusion proofs, and a recorder
//! that captures the nodes a read visits so the read can be replayed against
//! a minimal store.

mod bytemap;
mod error;
mod hasher;
mod indexdb;
mod indexdbmut;
mod key;
mod lookup;
mod node;
mod recorder;
mod storage;
mod storage_proof;
mod store;
mod tree;
mod treedb;
mod treedbmut;

pub use bytemap::{alist_keys_distinct, alist_view, bytes_eq, ByteMap};
pub use error::{DataError, DataErrorV, KeyError, KeyErrorV, NodeError, NodeErrorV};
pub use error::{NodeKind, NodeKindV, TreeError, TreeErrorV};
pub use hasher::{hash_bytes, hash_of, HASH_LENGTH};
pub use indexdb::{spec_index_fits, spec_index_key, IndexTreeDB, IndexTreeDBBuilder};
pub use indexdbmut::{IndexTreeDBMut, IndexTreeDBMutBuilder};
pub use key::{spec_index_byte, spec_key_bit, Key, KeyIter};
pub use lookup::{
    lemma_lookup_recorded_agrees, lemma_proof_verifies, lemma_rec_after_assoc,
    lemma_rec_after_empty, lemma_rec_after_single, lemma_rec_agrees_union,
    lemma_recorder_completeness, lemma_resolve_consistent, lemma_walk_proof_len,
    lemma_walk_proof_len_leaf, lemma_walk_recorded_agrees, lemma_walk_step, lemma_walk_verifies,
    spec_fold_step, spec_lookup_leaf, spec_rec_after, spec_rec_agrees, spec_resolve,
    spec_resolve_recorded, spec_store_covers, spec_walk, state_hash_consistent, views_of,
    WalkOutcome,
};
pub use node::{
    clone_bytes, decode_hash, lemma_codec_round_trip, lemma_decode_shape, lemma_encode_skip_hash,
    spec_decode, spec_decoded_shape, spec_encode, spec_storable, ChildSelector, Node, NodeHash,
    NodeHashV, NodeV,
};
pub use recorder::{
    lemma_agreeing_nodes_shape, lemma_encodings_cover, spec_encodings_of, Recorder,
};
pub use storage::{sat_inc, storage_wf, NodeStorage};
pub use storage_proof::{
    bytes_distinct, seq_has, spec_hash_unique_in, spec_hash_unique_in_set, spec_into_store,
    StorageProof,
};
pub use store::Store;
pub use tree::{ladder_wf, null_nodes, spec_default_hash, spec_default_node};
pub use treedb::{spec_verify_from, spec_verify_hash, spec_zero_hash, TreeDB, TreeDBBuilder};
pub use treedbmut::{
    key_in_prefix, lemma_commit_preserves_consistency, lemma_encode_decode_hash, opt_bytes_view,
    spec_commit_key, spec_committed_db, spec_db_at, spec_death_add, spec_death_at, spec_emplace_n,
    spec_emplace_once, spec_finish_leaf, spec_insert, spec_insert_at, spec_ov_at,
    spec_overlay_insert, spec_overlay_remove, spec_rec_resolve, spec_remove_n, spec_remove_node,
    spec_remove_once, InsertOutcome, MutState, TreeDBMut, TreeDBMutBuilder,
};

use vstd::prelude::*;

verus! {

/// The type of value stored in the database backend.
pub type DBValue = Vec<u8>;

} // verus!
