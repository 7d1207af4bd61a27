//! Storage proofs: a set of canonically encoded nodes sufficient to replay
//! a chosen set of reads against the original root.

use vstd::prelude::*;

use crate::bytemap::bytes_eq;
use crate::hasher::{hash_bytes, hash_of};
use crate::lookup::views_of;
use crate::storage::sat_inc;
use crate::store::Store;

verus! {

/// The store a list of encoded nodes materializes to: each non-empty byte
/// string is emplaced under the digest of its bytes after the type prefix.
pub open spec fn spec_into_store(s: Seq<Seq<u8>>) -> Map<Seq<u8>, (Seq<u8>, usize)>
    decreases s.len(),
{
    if s.len() == 0 {
        Map::empty()
    } else {
        let m = spec_into_store(s.drop_last());
        let b = s.last();
        if b.len() == 0 {
            m
        } else {
            let h = hash_of(b.skip(1));
            if m.contains_key(h) {
                m.insert(h, (m[h].0, sat_inc(m[h].1)))
            } else {
                m.insert(h, (b, 1usize))
            }
        }
    }
}

/// True when some element of the list has this view.
pub open spec fn seq_has(s: Seq<Vec<u8>>, b: Seq<u8>) -> bool {
    exists|i: int| 0 <= i < s.len() && s[i]@ == b
}

/// An element no other element of the list collides with: every distinct
/// non-empty element stores under a different digest.
pub open spec fn spec_hash_unique_in(s: Seq<Seq<u8>>, b: Seq<u8>) -> bool {
    forall|j: int| 0 <= j < s.len() && s[j] != b && s[j].len() > 0 ==> hash_of(
        #[trigger] s[j].skip(1),
    ) != hash_of(b.skip(1))
}

/// The set form of the same: no other member of the set stores under this
/// member's digest.
pub open spec fn spec_hash_unique_in_set(sset: Set<Seq<u8>>, b: Seq<u8>) -> bool {
    forall|b2: Seq<u8>| #[trigger] sset.contains(b2) && b2 != b && b2.len() > 0 ==> hash_of(
        b2.skip(1),
    ) != hash_of(b.skip(1))
}

/// Where an element of the list ends up in the materialized store: under
/// the digest of its bytes after the prefix, bytes intact, provided no
/// other element stores under the same digest.
proof fn lemma_into_store_at(s: Seq<Seq<u8>>, b: Seq<u8>)
    requires
        exists|j: int| 0 <= j < s.len() && s[j] == b,
        b.len() > 0,
        spec_hash_unique_in(s, b),
    ensures
        spec_into_store(s).contains_key(hash_of(b.skip(1))),
        spec_into_store(s)[hash_of(b.skip(1))].0 == b,
    decreases s.len(),
{
    let h = hash_of(b.skip(1));
    let last = s.last();
    if last == b {
        if exists|j: int| 0 <= j < s.len() - 1 && s.drop_last()[j] == b {
            assert(spec_hash_unique_in(s.drop_last(), b)) by {
                assert(forall|j: int| 0 <= j < s.len() - 1 ==> s.drop_last()[j] == s[j]);
            }
            lemma_into_store_at(s.drop_last(), b);
        } else {
            // No earlier occurrence of b: no earlier element stores under h.
            if spec_into_store(s.drop_last()).contains_key(h) {
                lemma_into_store_dom(s.drop_last(), h);
            }
        }
    } else {
        let j0 = choose|j: int| 0 <= j < s.len() && s[j] == b;
        assert(j0 < s.len() - 1);
        assert(s.drop_last()[j0] == b);
        assert(spec_hash_unique_in(s.drop_last(), b)) by {
            assert(forall|j: int| 0 <= j < s.len() - 1 ==> s.drop_last()[j] == s[j]);
        }
        lemma_into_store_at(s.drop_last(), b);
        if last.len() > 0 {
            assert(hash_of(last.skip(1)) != h);
        }
    }
}

/// Every key of the materialized store is the digest of some non-empty
/// element's bytes after the prefix.
proof fn lemma_into_store_dom(s: Seq<Seq<u8>>, k: Seq<u8>)
    requires
        spec_into_store(s).contains_key(k),
    ensures
        exists|j: int| 0 <= j < s.len() && s[j].len() > 0 && hash_of(#[trigger] s[j].skip(1)) == k,
    decreases s.len(),
{
    if s.len() > 0 {
        let last = s.last();
        if last.len() > 0 && hash_of(last.skip(1)) == k {
            assert(0 <= s.len() - 1 < s.len() && s[s.len() - 1].len() > 0 && hash_of(
                s[s.len() - 1].skip(1),
            ) == k);
        } else {
            lemma_into_store_dom(s.drop_last(), k);
            let j = choose|j: int|
                0 <= j < s.len() - 1 && s.drop_last()[j].len() > 0 && hash_of(
                    #[trigger] s.drop_last()[j].skip(1),
                ) == k;
            assert(s[j] == s.drop_last()[j]);
            assert(0 <= j < s.len() && s[j].len() > 0 && hash_of(s[j].skip(1)) == k);
        }
    }
}

/// A proof that a set of nodes is included in a tree: the set of their
/// canonical byte encodings.
pub struct StorageProof {
    nodes: Vec<Vec<u8>>,
}

impl View for StorageProof {
    type V = Set<Seq<u8>>;

    closed spec fn view(&self) -> Set<Seq<u8>> {
        Set::new(|b: Seq<u8>| seq_has(self.nodes@, b))
    }
}

/// Whether a list of byte vectors holds pairwise distinct byte strings.
pub open spec fn bytes_distinct(s: Seq<Vec<u8>>) -> bool {
    forall|i: int, j: int| 0 <= i < j < s.len() ==> s[i]@ != s[j]@
}

/// True when the list holds an element with the given view; a linear scan.
fn list_has(nodes: &Vec<Vec<u8>>, b: &[u8]) -> (r: bool)
    ensures
        r == seq_has(nodes@, b@),
{
    for i in 0..nodes.len()
        invariant
            forall|j: int| 0 <= j < i ==> nodes@[j]@ != b@,
    {
        if bytes_eq(nodes[i].as_slice(), b) {
            return true;
        }
    }
    false
}

impl StorageProof {
    /// The invariant every storage proof maintains: its encodings are
    /// pairwise distinct.
    #[verifier::type_invariant]
    spec fn inv(&self) -> bool {
        bytes_distinct(self.nodes@)
    }

    /// The proof's encodings in their held order; distinct, and together
    /// they are exactly the proof's set.
    pub closed spec fn seq_view(&self) -> Seq<Seq<u8>> {
        views_of(self.nodes@)
    }

    /// Creates a storage proof from the given encodings, dropping
    /// duplicates.
    pub fn new(nodes: Vec<Vec<u8>>) -> (r: StorageProof)
        ensures
            r@ == Set::new(|b: Seq<u8>| seq_has(nodes@, b)),
    {
        let mut kept: Vec<Vec<u8>> = Vec::new();
        for i in 0..nodes.len()
            invariant
                bytes_distinct(kept@),
                forall|b: Seq<u8>| #[trigger] seq_has(kept@, b) ==> seq_has(nodes@, b),
                forall|j: int| 0 <= j < i ==> seq_has(kept@, nodes@[j]@),
        {
            let ghost kept0 = kept@;
            if !list_has(&kept, nodes[i].as_slice()) {
                kept.push(crate::node::clone_bytes(&nodes[i]));
            }
            proof {
                assert(seq_has(kept@, nodes@[i as int]@)) by {
                    if seq_has(kept0, nodes@[i as int]@) {
                        let ghost target = nodes@[i as int]@;
                        let j = choose|j: int| 0 <= j < kept0.len() && kept0[j]@ == target;
                        assert(kept@[j]@ == nodes@[i as int]@);
                    } else {
                        assert(kept@[kept@.len() - 1]@ == nodes@[i as int]@);
                    }
                }
                assert forall|b: Seq<u8>| seq_has(kept0, b) implies #[trigger] seq_has(
                    kept@,
                    b,
                ) by {
                    let j = choose|j: int| 0 <= j < kept0.len() && kept0[j]@ == b;
                    assert(kept@[j]@ == b);
                }
                assert forall|b: Seq<u8>| #[trigger] seq_has(kept@, b) implies seq_has(
                    nodes@,
                    b,
                ) by {
                    let j = choose|j: int| 0 <= j < kept@.len() && kept@[j]@ == b;
                    if j < kept0.len() {
                        assert(seq_has(kept0, b));
                    } else {
                        assert(nodes@[i as int]@ == b);
                    }
                }
            }
        }
        let r = StorageProof { nodes: kept };
        proof {
            assert forall|b: Seq<u8>| seq_has(nodes@, b) implies seq_has(r.nodes@, b) by {
                let j = choose|j: int| 0 <= j < nodes@.len() && nodes@[j]@ == b;
                assert(seq_has(r.nodes@, nodes@[j]@));
            }
            assert(r@ =~= Set::new(|b: Seq<u8>| seq_has(nodes@, b)));
        }
        r
    }

    /// Creates an empty storage proof.
    pub fn empty() -> (r: StorageProof)
        ensures
            r@ == Set::<Seq<u8>>::empty(),
    {
        let r = StorageProof { nodes: Vec::new() };
        proof {
            assert(r@ =~= Set::<Seq<u8>>::empty());
        }
        r
    }

    /// True when the proof holds no encodings.
    pub fn is_empty(&self) -> (r: bool)
        ensures
            r == (self@ == Set::<Seq<u8>>::empty()),
    {
        proof {
            if self.nodes@.len() > 0 {
                assert(seq_has(self.nodes@, self.nodes@[0]@));
                assert(self@.contains(self.nodes@[0]@));
            } else {
                assert(self@ =~= Set::<Seq<u8>>::empty());
            }
        }
        self.nodes.len() == 0
    }

    /// Consumes the proof and returns its encodings, pairwise distinct.
    pub fn into_nodes(self) -> (r: Vec<Vec<u8>>)
        ensures
            bytes_distinct(r@),
            views_of(r@) == self.seq_view(),
            forall|b: Seq<u8>| #[trigger] self@.contains(b) <==> seq_has(r@, b),
    {
        proof {
            use_type_invariant(&self);
        }
        self.nodes
    }

    /// Consumes the proof and materializes a minimal store from it: each
    /// non-empty encoding is emplaced under the digest of its bytes after
    /// the type-prefix byte.
    pub fn into_store(self) -> (r: Store)
        ensures
            r@ == spec_into_store(self.seq_view()),
            forall|b: Seq<u8>|
                (#[trigger] self@.contains(b) && b.len() > 0 && spec_hash_unique_in_set(
                    self@,
                    b,
                )) ==> r@.contains_key(hash_of(b.skip(1))) && r@[hash_of(b.skip(1))].0 == b,
    {
        let mut store = Store::new();
        let nodes = self.nodes;
        let ghost s = views_of(nodes@);
        for i in 0..nodes.len()
            invariant
                s == views_of(nodes@),
                store@ == spec_into_store(s.take(i as int)),
        {
            let b = &nodes[i];
            proof {
                assert(s.take(i + 1).drop_last() =~= s.take(i as int));
                assert(s.take(i + 1).last() == b@);
            }
            if b.len() > 0 {
                let body = vstd::slice::slice_subrange(b.as_slice(), 1, b.len());
                proof {
                    assert(body@ =~= b@.skip(1));
                }
                let h = hash_bytes(body);
                store.emplace(h, crate::node::clone_bytes(b));
            }
        }
        proof {
            assert(s.take(nodes@.len() as int) =~= s);
            let ghost sset = Set::new(|bb: Seq<u8>| seq_has(nodes@, bb));
            assert forall|b: Seq<u8>|
                (sset.contains(b) && b.len() > 0 && spec_hash_unique_in_set(
                    sset,
                    b,
                )) implies store@.contains_key(#[trigger] hash_of(b.skip(1))) && store@[hash_of(
                b.skip(1),
            )].0 == b by {
                let j = choose|j: int| 0 <= j < nodes@.len() && nodes@[j]@ == b;
                assert(s[j] == b);
                assert(spec_hash_unique_in(s, b)) by {
                    assert forall|p: int| 0 <= p < s.len() && s[p] != b && s[p].len() > 0 implies
                        hash_of(#[trigger] s[p].skip(1)) != hash_of(b.skip(1)) by {
                        assert(s[p] == nodes@[p]@);
                        assert(seq_has(nodes@, s[p]));
                        assert(sset.contains(s[p]));
                    }
                }
                lemma_into_store_at(s, b);
            }
        }
        store
    }
}

} // verus!
