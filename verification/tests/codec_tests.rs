//! Behaviour of the leaf components: keys, node codec, storage, store,
//! recorder, storage proofs and the error cases of each.

use merkle_tree_db::{
    decode_hash, hash_bytes, ChildSelector, DataError, Key, KeyError, Node, NodeError, NodeHash,
    NodeStorage, Recorder, Store, StorageProof, TreeDBBuilder, TreeDBMutBuilder, TreeError,
};
use sha3::{Digest, Sha3_256};

fn sha3(data: &[u8]) -> Vec<u8> {
    Sha3_256::digest(data).as_slice().to_vec()
}

// ---------------------------------------------------------------------------
// Key
// ---------------------------------------------------------------------------

#[test]
fn test_key_new_and_size_error() {
    let k = Key::new(&[0xAB, 0xCD], 2).unwrap();
    assert_eq!(k.as_slice(), &[0xAB, 0xCD]);
    assert!(matches!(
        Key::new(&[0xAB], 2),
        Err(KeyError::IncorrectKeySize(2, 1))
    ));
}

#[test]
fn test_key_bits_msb_first() {
    // 0b1000_0001: the most significant bit of byte 0 comes first.
    let k = Key::new(&[0x81], 1).unwrap();
    assert_eq!(k.bit(0).unwrap(), true);
    for i in 1..7 {
        assert_eq!(k.bit(i).unwrap(), false);
    }
    assert_eq!(k.bit(7).unwrap(), true);
    assert!(matches!(k.bit(8), Err(KeyError::BitIndexOutOfBounds(8, 8))));
}

#[test]
fn test_key_iter() {
    let k = Key::new(&[0b1010_0000], 1).unwrap();
    let mut it = k.iter();
    assert_eq!(it.next(), Some(true));
    assert_eq!(it.next(), Some(false));
    assert_eq!(it.next(), Some(true));
    for _ in 3..8 {
        assert_eq!(it.next(), Some(false));
    }
    assert_eq!(it.next(), None);

    let mut from = k.iter_from(7);
    assert_eq!(from.next(), Some(false));
    assert_eq!(from.next(), None);
}

#[test]
fn test_key_zero_and_is_zero() {
    let z = Key::zero(3);
    assert_eq!(z.as_slice(), &[0, 0, 0]);
    assert!(z.is_zero());
    assert!(!Key::new(&[0, 1, 0], 3).unwrap().is_zero());
}

#[test]
fn test_key_from_index() {
    let k = Key::from_index(0x0102, 2).unwrap();
    assert_eq!(k.as_slice(), &[0x01, 0x02]);
    let max = Key::from_index(0xFFFF, 2).unwrap();
    assert_eq!(max.as_slice(), &[0xFF, 0xFF]);
    assert!(matches!(
        Key::from_index(0x1_0000, 2),
        Err(KeyError::LeafIndexOutOfBounds(0x1_0000, 0x1_0000))
    ));
    // Every index fits a full-width key.
    let wide = Key::from_index(u64::MAX, 8).unwrap();
    assert_eq!(wide.as_slice(), &[0xFF; 8]);
}

// ---------------------------------------------------------------------------
// Node and codec
// ---------------------------------------------------------------------------

#[test]
fn test_value_node_shape() {
    let n = Node::new_value(b"hello");
    assert_eq!(n.hash(), &sha3(b"hello"));
    assert_eq!(n.value().unwrap(), &b"hello".to_vec());
    assert!(!n.is_default());
    assert!(Node::new_value(&[]).is_default());
    assert!(matches!(
        n.child_hash(&ChildSelector::Left),
        Err(NodeError::InvalidNodeType(_, _))
    ));
}

#[test]
fn test_inner_node_hash_consistency() {
    let left = sha3(b"left");
    let right = sha3(b"right");
    let n = Node::new_inner(
        NodeHash::Database(left.clone()),
        NodeHash::Database(right.clone()),
    )
    .unwrap();
    let mut cat = left.clone();
    cat.extend_from_slice(&right);
    assert_eq!(n.hash(), &sha3(&cat));
    assert_eq!(n.child_hash(&ChildSelector::Left).unwrap().hash(), &left);
    assert_eq!(n.child_hash(&ChildSelector::Right).unwrap().hash(), &right);
    assert!(matches!(n.value(), Err(NodeError::InvalidNodeType(_, _))));
}

#[test]
fn test_inner_node_inconsistent_defaults() {
    let r = Node::new_inner(
        NodeHash::Default(sha3(b"a")),
        NodeHash::Default(sha3(b"b")),
    );
    assert!(matches!(r, Err(NodeError::InconsistentDefaultHashes)));
    // Matching default children are accepted.
    assert!(Node::new_inner(NodeHash::Default(sha3(b"a")), NodeHash::Default(sha3(b"a"))).is_ok());
}

#[test]
fn test_set_child_hash_recomputes() {
    let mut n = Node::new_inner(
        NodeHash::Database(sha3(b"l")),
        NodeHash::Database(sha3(b"r")),
    )
    .unwrap();
    n.set_child_hash(&ChildSelector::Right, NodeHash::Database(sha3(b"r2")))
        .unwrap();
    let mut cat = sha3(b"l");
    cat.extend_from_slice(&sha3(b"r2"));
    assert_eq!(n.hash(), &sha3(&cat));
}

#[test]
fn test_codec_round_trip() {
    // A value node survives encode/decode, hash recomputed.
    let v = Node::new_value(b"payload");
    let decoded = Node::decode(&v.encode()).unwrap();
    assert_eq!(decoded.encode(), v.encode());
    assert_eq!(decoded.hash(), v.hash());
    assert_eq!(decoded.value().unwrap(), &b"payload".to_vec());

    // Inner nodes with each prefix shape survive too.
    let both = Node::new_inner(
        NodeHash::Database(sha3(b"l")),
        NodeHash::Database(sha3(b"r")),
    )
    .unwrap();
    let right_default = Node::new_inner(
        NodeHash::Database(sha3(b"l")),
        NodeHash::Default(sha3(b"r")),
    )
    .unwrap();
    let left_default = Node::new_inner(
        NodeHash::Default(sha3(b"l")),
        NodeHash::Database(sha3(b"r")),
    )
    .unwrap();
    for n in [both, right_default, left_default] {
        let d = Node::decode(&n.encode()).unwrap();
        assert_eq!(d.encode(), n.encode());
        assert_eq!(d.hash(), n.hash());
        for sel in [ChildSelector::Left, ChildSelector::Right] {
            assert_eq!(
                d.child_hash(&sel).unwrap().hash(),
                n.child_hash(&sel).unwrap().hash()
            );
            assert_eq!(
                d.child_hash(&sel).unwrap().is_default(),
                n.child_hash(&sel).unwrap().is_default()
            );
        }
    }
}

#[test]
fn test_codec_prefixes() {
    let v = Node::new_value(b"x");
    assert_eq!(v.encode()[0], 0);
    let both = Node::new_inner(
        NodeHash::Database(sha3(b"l")),
        NodeHash::Database(sha3(b"r")),
    )
    .unwrap();
    assert_eq!(both.encode()[0], 1);
    assert_eq!(both.encode().len(), 65);
    let right_default = Node::new_inner(
        NodeHash::Database(sha3(b"l")),
        NodeHash::Default(sha3(b"r")),
    )
    .unwrap();
    assert_eq!(right_default.encode()[0], 2);
    let left_default = Node::new_inner(
        NodeHash::Default(sha3(b"l")),
        NodeHash::Database(sha3(b"r")),
    )
    .unwrap();
    assert_eq!(left_default.encode()[0], 3);
}

#[test]
fn test_decode_errors() {
    assert!(matches!(
        Node::decode(&[]),
        Err(NodeError::DecodeNodeNoData)
    ));
    assert!(matches!(
        Node::decode(&[0]),
        Err(NodeError::DecodeNodeEmptyValue)
    ));
    assert!(matches!(
        Node::decode(&[1, 2, 3]),
        Err(NodeError::DecodeNodeInvalidLength(3, 65))
    ));
    let mut bad_prefix = vec![9u8];
    bad_prefix.extend_from_slice(&[0u8; 64]);
    assert!(matches!(
        Node::decode(&bad_prefix),
        Err(NodeError::DecodeNodeInvalidPrefix(9))
    ));
}

#[test]
fn test_decode_hash() {
    let h = sha3(b"h");
    assert_eq!(decode_hash(&h).unwrap(), h);
    assert!(matches!(
        decode_hash(&[1, 2, 3]),
        Err(NodeError::DecodeNodeHashFailed(_))
    ));
}

// ---------------------------------------------------------------------------
// NodeStorage and Store
// ---------------------------------------------------------------------------

#[test]
fn test_node_storage_refcounts() {
    let mut storage = NodeStorage::empty();
    let node = Node::new_value(b"n");
    let hash = node.hash().clone();
    storage.insert(node.clone());
    storage.insert(node);
    // Two references: the first drop keeps the node, the second returns it.
    assert!(storage.remove(&hash).is_none());
    assert!(storage.get(&hash).is_some());
    let out = storage.remove(&hash).unwrap();
    assert_eq!(out.hash(), &hash);
    assert!(storage.get(&hash).is_none());
    assert!(storage.remove(&hash).is_none());
}

#[test]
fn test_store_refcounts() {
    let mut store = Store::new();
    let h = sha3(b"k");
    store.emplace(h.clone(), b"data".to_vec());
    store.emplace(h.clone(), b"data".to_vec());
    assert_eq!(store.get(&h), Some(b"data".to_vec()));
    store.remove(&h);
    assert_eq!(store.get(&h), Some(b"data".to_vec()));
    store.remove(&h);
    assert_eq!(store.get(&h), None);
    // Removing an absent hash is a no-op.
    store.remove(&h);
    assert_eq!(store.get(&h), None);
}

// ---------------------------------------------------------------------------
// Recorder and StorageProof
// ---------------------------------------------------------------------------

#[test]
fn test_recorder_records_nodes() {
    let mut rec = Recorder::new();
    let n = Node::new_value(b"n");
    rec.record(&n);
    rec.record(&n);
    let drained = rec.drain();
    assert_eq!(drained.len(), 1);
    assert_eq!(&drained[0].0, n.hash());
}

#[test]
fn test_storage_proof_dedup_and_into_store() {
    let encoded = Node::new_value(b"n").encode();
    let sp = StorageProof::new(vec![encoded.clone(), encoded.clone()]);
    let nodes = sp.into_nodes();
    assert_eq!(nodes, vec![encoded.clone()]);

    let sp2 = StorageProof::new(vec![encoded.clone()]);
    let store = sp2.into_store();
    // Stored under the digest of the encoding minus its prefix byte.
    assert_eq!(store.get(&sha3(&encoded[1..])), Some(encoded));

    assert!(StorageProof::empty().is_empty());
    assert!(!StorageProof::new(vec![vec![1]]).is_empty());
}

#[test]
fn test_to_storage_proof_keeps_recorder() {
    let mut rec = Recorder::new();
    let n = Node::new_value(b"kept");
    rec.record(&n);
    let sp = rec.to_storage_proof();
    assert_eq!(sp.into_nodes(), vec![n.encode()]);
    // The recorder still holds the node afterwards.
    assert_eq!(rec.drain().len(), 1);
}

// ---------------------------------------------------------------------------
// Tree-level errors
// ---------------------------------------------------------------------------

#[test]
fn test_depth_too_large() {
    let r = TreeDBBuilder::new(Store::new(), vec![0u8; 32], usize::MAX / 8 + 1);
    assert!(matches!(r, Err(TreeError::DepthTooLarge(_, _))));
    let r = TreeDBMutBuilder::new(Store::new(), vec![0u8; 32], usize::MAX / 8 + 1);
    assert!(matches!(r, Err(TreeError::DepthTooLarge(_, _))));
}

#[test]
fn test_wrong_key_size_error() {
    let mut tree = TreeDBMutBuilder::new(Store::new(), vec![0u8; 32], 1)
        .unwrap()
        .build();
    assert!(matches!(
        tree.value(&[1, 2]),
        Err(TreeError::KeyError(KeyError::IncorrectKeySize(1, 2)))
    ));
}

#[test]
fn test_database_data_not_found() {
    // A non-zero root with an empty store cannot resolve.
    let mut tree = TreeDBBuilder::new(Store::new(), sha3(b"missing"), 1)
        .unwrap()
        .build();
    assert!(matches!(
        tree.value(&[0]),
        Err(TreeError::DataError(DataError::DatabaseDataNotFound(_)))
    ));
}

#[test]
fn test_leaf_index_out_of_bounds() {
    let mut tree = merkle_tree_db::IndexTreeDBMutBuilder::new(Store::new(), vec![0u8; 32], 1)
        .unwrap()
        .build();
    assert!(matches!(
        tree.insert(&256, b"v".to_vec()),
        Err(TreeError::KeyError(KeyError::LeafIndexOutOfBounds(256, 256)))
    ));
}

#[test]
fn test_hash_bytes_length() {
    assert_eq!(hash_bytes(b"anything").len(), merkle_tree_db::HASH_LENGTH);
}
