//! The recorder: captures the nodes a read resolves from the backing store,
//! so the read can later be replayed against a minimal store.

use vstd::prelude::*;

use crate::bytemap::ByteMap;
use crate::node::{Node, NodeV};

verus! {

/// A record of database reads: a map from a node's hash to the node.
pub struct Recorder {
    nodes: ByteMap<Node>,
}

impl View for Recorder {
    type V = Map<Seq<u8>, NodeV>;

    closed spec fn view(&self) -> Map<Seq<u8>, NodeV> {
        self.nodes@
    }
}

impl Recorder {
    /// Creates an empty recorder.
    pub fn new() -> (r: Recorder)
        ensures
            r@ == Map::<Seq<u8>, NodeV>::empty(),
    {
        Recorder { nodes: ByteMap::new() }
    }

    /// Records a node under its hash; recording the same node again changes
    /// nothing.
    pub fn record(&mut self, node: &Node)
        ensures
            final(self)@ == old(self)@.insert(node@.spec_hash(), node@),
    {
        self.nodes.insert(crate::node::clone_bytes(node.hash()), node.clone());
    }

    /// Empties the recorder, handing the recorded nodes out as a list with
    /// distinct keys that together describe the old contents.
    pub fn drain(&mut self) -> (r: Vec<(Vec<u8>, Node)>)
        ensures
            final(self)@ == Map::<Seq<u8>, NodeV>::empty(),
            crate::bytemap::alist_keys_distinct(r@),
            crate::bytemap::alist_view(r@) == old(self)@,
    {
        self.nodes.drain()
    }
}

/// The set of canonical encodings of a recorded node map's nodes.
pub open spec fn spec_encodings_of(m: Map<Seq<u8>, NodeV>) -> Set<Seq<u8>> {
    Set::new(
        |b: Seq<u8>|
            exists|h: Seq<u8>| #[trigger] m.contains_key(h) && b == crate::node::spec_encode(m[h]),
    )
}

impl Recorder {
    /// Drains the recorder and hands its nodes out as a storage proof: the
    /// set of their canonical encodings.
    pub fn drain_storage_proof(self) -> (r: crate::storage_proof::StorageProof)
        ensures
            r@ == spec_encodings_of(self@),
    {
        let ghost m = self@;
        let mut me = self;
        let entries = me.drain();
        let ghost es = entries@;
        let mut encodings: Vec<Vec<u8>> = Vec::new();
        for i in 0..entries.len()
            invariant
                es == entries@,
                crate::bytemap::alist_keys_distinct(es),
                crate::bytemap::alist_view(es) == m,
                encodings@.len() == i,
                forall|p: int| 0 <= p < i ==> #[trigger] encodings@[p]@
                    == crate::node::spec_encode(es[p].1@),
        {
            encodings.push(entries[i].1.encode());
        }
        let r = crate::storage_proof::StorageProof::new(encodings);
        proof {
            assert forall|b: Seq<u8>| #[trigger] r@.contains(b)
                == spec_encodings_of(m).contains(b) by {
                if crate::storage_proof::seq_has(encodings@, b) {
                    let p = choose|p: int|
                        0 <= p < encodings@.len() && encodings@[p]@ == b;
                    crate::bytemap::lemma_alist_at(es, p);
                    assert(m.contains_key(es[p].0@) && b == crate::node::spec_encode(
                        m[es[p].0@],
                    ));
                }
                if spec_encodings_of(m).contains(b) {
                    let h = choose|h: Seq<u8>|
                        #[trigger] m.contains_key(h) && b == crate::node::spec_encode(m[h]);
                    crate::bytemap::lemma_alist_contains(es, h);
                    let p = choose|p: int| 0 <= p < es.len() && es[p].0@ == h;
                    crate::bytemap::lemma_alist_at(es, p);
                    assert(encodings@[p]@ == b);
                    assert(crate::storage_proof::seq_has(encodings@, b));
                }
            }
            assert(r@ =~= spec_encodings_of(m));
        }
        r
    }

    /// The recorded nodes as a storage proof, leaving the recorder as it
    /// is.
    pub fn to_storage_proof(&self) -> (r: crate::storage_proof::StorageProof)
        ensures
            r@ == spec_encodings_of(self@),
    {
        let ghost m = self@;
        let entries = self.nodes.entry_list();
        let ghost es = entries@;
        let mut encodings: Vec<Vec<u8>> = Vec::new();
        for i in 0..entries.len()
            invariant
                es == entries@,
                crate::bytemap::alist_keys_distinct(es),
                crate::bytemap::alist_view(es) == m,
                encodings@.len() == i,
                forall|p: int| 0 <= p < i ==> #[trigger] encodings@[p]@
                    == crate::node::spec_encode(es[p].1@),
        {
            encodings.push(entries[i].1.encode());
        }
        let r = crate::storage_proof::StorageProof::new(encodings);
        proof {
            assert forall|b: Seq<u8>| #[trigger] r@.contains(b)
                == spec_encodings_of(m).contains(b) by {
                if crate::storage_proof::seq_has(encodings@, b) {
                    let p = choose|p: int|
                        0 <= p < encodings@.len() && encodings@[p]@ == b;
                    crate::bytemap::lemma_alist_at(es, p);
                    assert(m.contains_key(es[p].0@) && b == crate::node::spec_encode(
                        m[es[p].0@],
                    ));
                }
                if spec_encodings_of(m).contains(b) {
                    let h = choose|h: Seq<u8>|
                        #[trigger] m.contains_key(h) && b == crate::node::spec_encode(m[h]);
                    crate::bytemap::lemma_alist_contains(es, h);
                    let p = choose|p: int| 0 <= p < es.len() && es[p].0@ == h;
                    crate::bytemap::lemma_alist_at(es, p);
                    assert(encodings@[p]@ == b);
                    assert(crate::storage_proof::seq_has(encodings@, b));
                }
            }
            assert(r@ =~= spec_encodings_of(m));
        }
        r
    }
}

/// Nodes a recorder captured from a hash-consistent store hang under their
/// own hashes and have the shape decoding gives.
pub proof fn lemma_agreeing_nodes_shape(
    rec: Map<Seq<u8>, NodeV>,
    db: Map<Seq<u8>, (Seq<u8>, usize)>,
)
    requires
        crate::lookup::spec_rec_agrees(rec, db),
        forall|h: Seq<u8>| #[trigger] db.contains_key(h) ==> match crate::node::spec_decode(
            db[h].0,
        ) {
            Ok(n) => n.spec_hash() == h,
            Err(_) => true,
        },
    ensures
        forall|h: Seq<u8>| #[trigger] rec.contains_key(h) ==> rec[h].spec_hash() == h
            && crate::node::spec_decoded_shape(rec[h]),
{
    assert forall|h: Seq<u8>| #[trigger] rec.contains_key(h) implies rec[h].spec_hash() == h
        && crate::node::spec_decoded_shape(rec[h]) by {
        crate::node::lemma_decode_shape(db[h].0);
    }
}

/// Recorder completeness, storage side: the minimal store built from the
/// encodings of a recorded node map covers the map — under each recorded
/// hash it holds that node's canonical encoding, which decodes back to the
/// node. Together with [`crate::lookup::lemma_recorder_completeness`], a
/// read replayed against that minimal store returns what the original read
/// returned.
pub proof fn lemma_encodings_cover(
    m: Map<Seq<u8>, NodeV>,
    db2: Map<Seq<u8>, (Seq<u8>, usize)>,
)
    requires
        forall|h: Seq<u8>| #[trigger] m.contains_key(h) ==> m[h].spec_hash() == h
            && crate::node::spec_decoded_shape(m[h]),
        forall|b: Seq<u8>|
            (#[trigger] spec_encodings_of(m).contains(b) && b.len() > 0
                && crate::storage_proof::spec_hash_unique_in_set(spec_encodings_of(m), b))
                ==> db2.contains_key(crate::hasher::hash_of(b.skip(1))) && db2[
                crate::hasher::hash_of(b.skip(1))
            ].0 == b,
    ensures
        crate::lookup::spec_store_covers(db2, m),
{
    assert forall|h: Seq<u8>| #[trigger] m.contains_key(h) implies db2.contains_key(h)
        && crate::node::spec_decode(db2[h].0) == Ok::<NodeV, crate::error::NodeErrorV>(m[h]) by {
        let n = m[h];
        let b = crate::node::spec_encode(n);
        crate::node::lemma_encode_skip_hash(n);
        assert(spec_encodings_of(m).contains(b));
        assert(crate::storage_proof::spec_hash_unique_in_set(spec_encodings_of(m), b)) by {
            assert forall|b2: Seq<u8>| #[trigger] spec_encodings_of(m).contains(b2) && b2 != b
                && b2.len() > 0 implies crate::hasher::hash_of(b2.skip(1))
                != crate::hasher::hash_of(b.skip(1)) by {
                let h2 = choose|h2: Seq<u8>|
                    #[trigger] m.contains_key(h2) && b2 == crate::node::spec_encode(m[h2]);
                crate::node::lemma_encode_skip_hash(m[h2]);
            }
        }
        crate::node::lemma_codec_round_trip(n);
    }
}

impl Default for Recorder {
    /// The default recorder is empty.
    fn default() -> (r: Recorder)
        ensures
            r@ == Map::<Seq<u8>, NodeV>::empty(),
    {
        Recorder::new()
    }
}

} // verus!
