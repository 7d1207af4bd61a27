//! End-to-end behaviour of the trees: inclusion and non-inclusion round
//! trips, idempotence, order-insensitivity, reference-count preservation,
//! and recorder replay.

use merkle_tree_db::{
    IndexTreeDBMut, IndexTreeDBMutBuilder, Recorder, Store, TreeDB, TreeDBBuilder, TreeDBMut,
    TreeDBMutBuilder,
};
use sha3::{Digest, Sha3_256};

fn sha3(data: &[u8]) -> Vec<u8> {
    Sha3_256::digest(data).as_slice().to_vec()
}

fn zero_root() -> Vec<u8> {
    vec![0u8; 32]
}

fn mut_tree(db: Store, root: Vec<u8>, depth: usize) -> TreeDBMut {
    TreeDBMutBuilder::new(db, root, depth).unwrap().build()
}

fn index_tree(db: Store, root: Vec<u8>, depth: usize) -> IndexTreeDBMut {
    IndexTreeDBMutBuilder::new(db, root, depth).unwrap().build()
}

fn store_snapshot(store: &Store) -> Vec<(Vec<u8>, Vec<u8>, usize)> {
    let mut v: Vec<(Vec<u8>, Vec<u8>, usize)> = store
        .entries()
        .iter()
        .map(|(h, (b, c))| (h.clone(), b.clone(), *c))
        .collect();
    v.sort();
    v
}

/// The default-hash ladder d_0 .. d_n, computed independently.
fn default_hashes(n: usize) -> Vec<Vec<u8>> {
    let mut v = vec![sha3(&[])];
    for i in 0..n {
        let mut cat = v[i].clone();
        cat.extend_from_slice(&v[i]);
        v.push(sha3(&cat));
    }
    v
}

#[test]
fn test_empty_root_identity() {
    // The root of the empty tree is the top of the null-node ladder.
    let ladder = default_hashes(8);
    let mut tree = mut_tree(Store::new(), zero_root(), 1);
    assert_eq!(tree.root(), &ladder[8]);

    let ladder16 = default_hashes(16);
    let mut tree16 = mut_tree(Store::new(), zero_root(), 2);
    assert_eq!(tree16.root(), &ladder16[16]);
}

#[test]
fn test_depth8_single_insert() {
    // Depth 8 (one key byte), single insert from the zero root.
    let mut tree = mut_tree(Store::new(), zero_root(), 1);
    assert_eq!(tree.insert(&[0x00], b"flip".to_vec()).unwrap(), None);
    tree.commit();
    assert_eq!(tree.value(&[0x00]).unwrap(), Some(b"flip".to_vec()));
    assert_eq!(tree.value(&[0x01]).unwrap(), None);
    let (value, root, siblings) = tree.merkle_proof(&[0x00]).unwrap();
    assert_eq!(value, Some(b"flip".to_vec()));
    assert_eq!(siblings.len(), 8);
    assert_eq!(&root, tree.root());
    let root = tree.root().clone();
    assert!(TreeDBMut::verify(&[0x00], b"flip", &siblings, &root, 1).unwrap());
    assert!(!TreeDBMut::verify(&[0x00], b"flop", &siblings, &root, 1).unwrap());
}

#[test]
fn test_depth8_index_adapter_inserts_removes() {
    // Four inserts then two removes through the index adapter at depth 8.
    let mut tree = index_tree(Store::new(), zero_root(), 1);
    tree.insert(&0, b"flip".to_vec()).unwrap();
    tree.insert(&2, b"flop".to_vec()).unwrap();
    tree.insert(&8, b"flap".to_vec()).unwrap();
    tree.insert(&9, b"flup".to_vec()).unwrap();
    tree.commit();
    let root_1 = tree.root().clone();

    tree.remove(&0).unwrap();
    tree.remove(&9).unwrap();
    tree.commit();
    let root_2 = tree.root().clone();

    assert_eq!(tree.value(&2).unwrap(), Some(b"flop".to_vec()));
    assert_eq!(tree.value(&0).unwrap(), None);
    assert_eq!(tree.value(&9).unwrap(), None);
    assert_ne!(root_1, root_2);

    // root_2 equals the root of a fresh tree holding only (2, flop), (8, flap).
    let mut fresh = index_tree(Store::new(), zero_root(), 1);
    fresh.insert(&2, b"flop".to_vec()).unwrap();
    fresh.insert(&8, b"flap".to_vec()).unwrap();
    assert_eq!(fresh.root(), &root_2);
}

#[test]
fn test_depth16_non_inclusion_proof() {
    // Depth 16, a single insert; the neighbouring key is provably absent.
    let mut tree = mut_tree(Store::new(), zero_root(), 2);
    tree.insert(&[0, 100], b"x".to_vec()).unwrap();
    tree.commit();
    let root = tree.root().clone();

    let (value, proof_root, siblings) = tree.merkle_proof(&[0, 101]).unwrap();
    assert_eq!(value, None);
    assert_eq!(proof_root, root);
    assert_eq!(siblings.len(), 16);
    assert!(TreeDBMut::verify(&[0, 101], &[], &siblings, &root, 2).unwrap());
    assert!(!TreeDBMut::verify(&[0, 101], b"y", &siblings, &root, 2).unwrap());
}

#[test]
fn test_non_inclusion_round_trip() {
    // A key never inserted, and a key removed again, both read back as
    // absent, and their non-inclusion proofs verify with the empty value.
    let mut tree = mut_tree(Store::new(), zero_root(), 1);
    tree.insert(&[7], b"here".to_vec()).unwrap();
    tree.insert(&[9], b"gone".to_vec()).unwrap();
    tree.remove(&[9]).unwrap();
    tree.commit();
    let root = tree.root().clone();

    for key in [[3u8], [9u8]] {
        assert_eq!(tree.value(&key).unwrap(), None);
        assert_eq!(tree.leaf(&key).unwrap(), None);
        let (value, _, siblings) = tree.merkle_proof(&key).unwrap();
        assert_eq!(value, None);
        assert!(TreeDBMut::verify(&key, &[], &siblings, &root, 1).unwrap());
    }
}

#[test]
fn test_inclusion_round_trip() {
    // After insert and commit: value, leaf hash and verifying proof.
    let mut tree = mut_tree(Store::new(), zero_root(), 1);
    tree.insert(&[42], b"payload".to_vec()).unwrap();
    tree.commit();
    assert_eq!(tree.value(&[42]).unwrap(), Some(b"payload".to_vec()));
    assert_eq!(tree.leaf(&[42]).unwrap(), Some(sha3(b"payload")));
    let root = tree.root().clone();
    let (value, _, siblings) = tree.merkle_proof(&[42]).unwrap();
    assert_eq!(value, Some(b"payload".to_vec()));
    assert_eq!(siblings.len(), 8);
    assert!(TreeDBMut::verify(&[42], b"payload", &siblings, &root, 1).unwrap());
}

#[test]
fn test_insert_idempotence() {
    // Inserting the same pair twice leaves the tree byte-identical to a
    // single insert; removing twice equals removing once.
    let mut once = mut_tree(Store::new(), zero_root(), 1);
    once.insert(&[5], b"v".to_vec()).unwrap();
    once.commit();
    let (store_once, root_once, _) = once.into_parts();

    let mut twice = mut_tree(Store::new(), zero_root(), 1);
    twice.insert(&[5], b"v".to_vec()).unwrap();
    twice.insert(&[5], b"v".to_vec()).unwrap();
    twice.commit();
    let (store_twice, root_twice, _) = twice.into_parts();

    assert_eq!(root_once, root_twice);
    assert_eq!(store_snapshot(&store_once), store_snapshot(&store_twice));

    let mut rm_once = mut_tree(store_once.clone(), root_once.clone(), 1);
    rm_once.remove(&[5]).unwrap();
    rm_once.commit();
    let (s1, r1, _) = rm_once.into_parts();

    let mut rm_twice = mut_tree(store_once.clone(), root_once.clone(), 1);
    rm_twice.remove(&[5]).unwrap();
    rm_twice.remove(&[5]).unwrap();
    rm_twice.commit();
    let (s2, r2, _) = rm_twice.into_parts();

    assert_eq!(r1, r2);
    assert_eq!(store_snapshot(&s1), store_snapshot(&s2));
}

#[test]
fn test_idempotent_root() {
    // Over a key set, inserting each key twice with the same value and
    // committing once yields the same root as inserting each once.
    let keys: [(u8, &[u8]); 3] = [(1, b"a"), (130, b"b"), (200, b"c")];
    let mut once = mut_tree(Store::new(), zero_root(), 1);
    for (k, v) in keys {
        once.insert(&[k], v.to_vec()).unwrap();
    }
    let mut twice = mut_tree(Store::new(), zero_root(), 1);
    for (k, v) in keys {
        twice.insert(&[k], v.to_vec()).unwrap();
        twice.insert(&[k], v.to_vec()).unwrap();
    }
    assert_eq!(once.root(), twice.root());
}

#[test]
fn test_order_insensitivity() {
    // Two sessions applying the same net key-value map commit the same root.
    let mut forward = mut_tree(Store::new(), zero_root(), 1);
    forward.insert(&[1], b"one".to_vec()).unwrap();
    forward.insert(&[2], b"two".to_vec()).unwrap();
    forward.insert(&[3], b"three".to_vec()).unwrap();
    forward.commit();

    let mut backward = mut_tree(Store::new(), zero_root(), 1);
    backward.insert(&[3], b"three".to_vec()).unwrap();
    backward.insert(&[1], b"one".to_vec()).unwrap();
    backward.insert(&[2], b"two".to_vec()).unwrap();
    backward.commit();

    assert_eq!(forward.root(), backward.root());
}

#[test]
fn test_refcount_preservation() {
    // insert(k, v); remove(k); commit leaves the store's byte contents
    // exactly as they started.
    let mut seed = mut_tree(Store::new(), zero_root(), 1);
    seed.insert(&[10], b"kept".to_vec()).unwrap();
    seed.insert(&[20], b"also".to_vec()).unwrap();
    seed.commit();
    let (store0, root0, _) = seed.into_parts();
    let before = store_snapshot(&store0);

    let mut tree = mut_tree(store0, root0.clone(), 1);
    tree.insert(&[30], b"temp".to_vec()).unwrap();
    tree.remove(&[30]).unwrap();
    tree.commit();
    assert_eq!(tree.root(), &root0);
    let (store1, _, _) = tree.into_parts();
    assert_eq!(before, store_snapshot(&store1));
}

#[test]
fn test_update_in_place() {
    // insert(k, v1); commit; insert(k, v2): insert returns Some(v1), and the
    // committed store holds exactly the nodes of the tree holding (k, v2)
    // plus whatever unrelated entries existed before.
    let mut seed = mut_tree(Store::new(), zero_root(), 1);
    seed.insert(&[90], b"unrelated".to_vec()).unwrap();
    seed.commit();
    let (unrelated_store, unrelated_root, _) = seed.into_parts();

    // A session over a store that also carries an unrelated prior tree.
    let mut tree = mut_tree(unrelated_store.clone(), zero_root(), 1);
    tree.insert(&[4], b"v1".to_vec()).unwrap();
    tree.commit();
    let old = tree.insert(&[4], b"v2".to_vec()).unwrap();
    assert_eq!(old, Some(b"v1".to_vec()));
    tree.commit();
    assert_eq!(tree.value(&[4]).unwrap(), Some(b"v2".to_vec()));
    let (store_after, _, _) = tree.into_parts();

    // The same end state reached directly.
    let mut direct = mut_tree(unrelated_store, zero_root(), 1);
    direct.insert(&[4], b"v2".to_vec()).unwrap();
    direct.commit();
    let (store_direct, _, _) = direct.into_parts();
    assert_eq!(store_snapshot(&store_after), store_snapshot(&store_direct));

    // The unrelated tree is still fully readable.
    let mut unrelated = TreeDBBuilder::new(store_direct, unrelated_root, 1)
        .unwrap()
        .build();
    assert_eq!(unrelated.value(&[90]).unwrap(), Some(b"unrelated".to_vec()));
}

#[test]
fn test_recorder_replay() {
    // Record the reads of four lookups, drain them to a storage proof, and
    // replay the same lookups against the minimal store it materializes.
    let mut tree = index_tree(Store::new(), zero_root(), 1);
    tree.insert(&0, b"flip".to_vec()).unwrap();
    tree.insert(&2, b"flop".to_vec()).unwrap();
    tree.insert(&8, b"flap".to_vec()).unwrap();
    tree.insert(&9, b"flup".to_vec()).unwrap();
    tree.remove(&0).unwrap();
    tree.remove(&9).unwrap();
    tree.commit();
    let root_2 = tree.root().clone();
    let (store, _, _) = tree.into_parts();

    let mut recorded = merkle_tree_db::IndexTreeDBBuilder::new(store, root_2.clone(), 1)
        .unwrap()
        .with_recorder(Recorder::new())
        .build();
    let mut expected = Vec::new();
    for i in [0u64, 2, 8, 9] {
        expected.push(recorded.value(&i).unwrap());
    }
    // Replaying against the minimal store gives the same answers.
    // (There is no way back from the immutable tree to its recorder other
    // than rebuilding, so the recorder is driven through the mutable tree.)
    let mut tree2 = index_tree(Store::new(), zero_root(), 1);
    tree2.insert(&2, b"flop".to_vec()).unwrap();
    tree2.insert(&8, b"flap".to_vec()).unwrap();
    tree2.commit();
    assert_eq!(tree2.root(), &root_2);
    let (store2, _, _) = tree2.into_parts();

    let mut rec = Recorder::new();
    {
        let mut watched = TreeDBBuilder::new(store2, root_2.clone(), 1)
            .unwrap()
            .with_recorder(rec)
            .build();
        for i in [0u8, 2, 8, 9] {
            watched.value(&[i]).unwrap();
        }
        rec = watched.take_recorder().unwrap();
    }
    let minimal = rec.drain_storage_proof().into_store();
    let mut replay = TreeDBBuilder::new(minimal, root_2, 1).unwrap().build();
    assert_eq!(replay.value(&[0]).unwrap(), expected[0]);
    assert_eq!(replay.value(&[2]).unwrap(), expected[1]);
    assert_eq!(replay.value(&[8]).unwrap(), expected[2]);
    assert_eq!(replay.value(&[9]).unwrap(), expected[3]);
}

#[test]
fn test_hash_matches_sha3() {
    // The trusted hashing wrapper computes SHA3-256, nothing else.
    assert_eq!(merkle_tree_db::hash_bytes(b"abc"), sha3(b"abc"));
    assert_eq!(merkle_tree_db::hash_bytes(&[]), sha3(&[]));
    assert_ne!(merkle_tree_db::hash_bytes(b"abc"), b"abc".to_vec());
}

#[test]
fn test_uncommitted_reads_and_root() {
    // Reads see uncommitted writes through the overlay; reading the root
    // forces a commit.
    let mut tree = mut_tree(Store::new(), zero_root(), 1);
    tree.insert(&[1], b"pending".to_vec()).unwrap();
    assert_eq!(tree.value(&[1]).unwrap(), Some(b"pending".to_vec()));
    let root = tree.root().clone();
    let (store, root_cell, _) = tree.into_parts();
    assert_eq!(root, root_cell);
    let mut read_only = TreeDBBuilder::new(store, root_cell, 1).unwrap().build();
    assert_eq!(read_only.value(&[1]).unwrap(), Some(b"pending".to_vec()));
}

#[test]
fn test_immutable_tree_reads() {
    // The immutable tree answers value, leaf and proof over a committed
    // store, and its depth is the configured width in bits.
    let mut writer = mut_tree(Store::new(), zero_root(), 2);
    writer.insert(&[0, 7], b"val".to_vec()).unwrap();
    writer.commit();
    let (store, root, _) = writer.into_parts();

    let mut tree = TreeDBBuilder::new(store, root.clone(), 2).unwrap().build();
    assert_eq!(tree.root(), &root);
    assert_eq!(tree.depth(), 16);
    assert_eq!(tree.value(&[0, 7]).unwrap(), Some(b"val".to_vec()));
    assert_eq!(tree.leaf(&[0, 7]).unwrap(), Some(sha3(b"val")));
    let (value, proof_root, siblings) = tree.merkle_proof(&[0, 7]).unwrap();
    assert_eq!(value, Some(b"val".to_vec()));
    assert_eq!(proof_root, root);
    assert_eq!(siblings.len(), 16);
    assert!(TreeDB::verify(&[0, 7], b"val", &siblings, &root, 2).unwrap());
}

#[test]
fn test_index_adapter_proof_and_verify() {
    let mut tree = index_tree(Store::new(), zero_root(), 2);
    tree.insert(&300, b"deep".to_vec()).unwrap();
    tree.commit();
    let root = tree.root().clone();
    let (value, _, siblings) = tree.merkle_proof(&300).unwrap();
    assert_eq!(value, Some(b"deep".to_vec()));
    assert_eq!(siblings.len(), 16);
    assert!(IndexTreeDBMut::verify(&300, b"deep", &siblings, &root, 2).unwrap());
    assert!(!IndexTreeDBMut::verify(&301, b"deep", &siblings, &root, 2).unwrap());
}
